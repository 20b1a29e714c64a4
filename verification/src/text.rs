//! Text helpers.

use vstd::prelude::*;
use vstd::string::*;

verus! {

/// Whether two strings have the same characters.
pub(crate) fn same_text(a: &str, b: &str) -> (same: bool)
    ensures
        same == (a@ == b@),
{
    a.to_owned() == b.to_owned()
}

/// Whether `c` has the `White_Space` property of Unicode.
pub open spec fn is_white_space(c: char) -> bool {
    let code = c as u32;
    ||| 0x09 <= code <= 0x0d
    ||| code == 0x20
    ||| code == 0x85
    ||| code == 0xa0
    ||| code == 0x1680
    ||| 0x2000 <= code <= 0x200a
    ||| code == 0x2028
    ||| code == 0x2029
    ||| code == 0x202f
    ||| code == 0x205f
    ||| code == 0x3000
}

/// `text` without the white space in front of the first other character.
pub open spec fn trim_start_spec(text: Seq<char>) -> Seq<char>
    decreases text.len(),
{
    if text.len() > 0 && is_white_space(text[0]) {
        trim_start_spec(text.drop_first())
    } else {
        text
    }
}

/// `text` without the white space behind the last other character.
pub open spec fn trim_end_spec(text: Seq<char>) -> Seq<char>
    decreases text.len(),
{
    if text.len() > 0 && is_white_space(text.last()) {
        trim_end_spec(text.drop_last())
    } else {
        text
    }
}

/// `text` without leading and trailing white space.
pub open spec fn trim_spec(text: Seq<char>) -> Seq<char> {
    trim_end_spec(trim_start_spec(text))
}

/// Removes leading and trailing white space.
///
/// Calls `str::trim`, which is documented to remove leading and trailing
/// characters with the `White_Space` property of Unicode, and no others.
#[verifier::external_body]
pub(crate) fn trim(text: &str) -> (trimmed: &str)
    ensures
        trimmed@ == trim_spec(text@),
{
    text.trim()
}

/// The lower-case letter of an ASCII capital; any other character unchanged.
pub open spec fn ascii_lower(c: char) -> char {
    if 'A' <= c <= 'Z' {
        (c as u32 + 32) as char
    } else {
        c
    }
}

/// `text` with ASCII capitals in lower case.
pub open spec fn ascii_lower_text(text: Seq<char>) -> Seq<char> {
    text.map_values(|c: char| ascii_lower(c))
}

/// The small letters of the ASCII alphabet are the capitals 32 places on.
proof fn lemma_small_letters(c: char)
    requires
        'A' <= c <= 'Z',
    ensures
        "abcdefghijklmnopqrstuvwxyz"@.len() == 26,
        "abcdefghijklmnopqrstuvwxyz"@[c as u32 - 0x41] == ascii_lower(c),
{
    reveal_strlit("abcdefghijklmnopqrstuvwxyz");
}

/// Maps ASCII capitals to lower case.
pub(crate) fn to_ascii_lowercase(text: &str) -> (lower: String)
    ensures
        lower@ == ascii_lower_text(text@),
{
    let letters = "abcdefghijklmnopqrstuvwxyz";
    let mut lower = String::new();
    let count: usize = text.unicode_len();
    let mut next: usize = 0;
    assert(lower@ =~= ascii_lower_text(text@).take(0));
    while next < count
        invariant
            letters@ == "abcdefghijklmnopqrstuvwxyz"@,
            next <= count == text@.len(),
            lower@ == ascii_lower_text(text@).take(next as int),
        decreases count - next,
    {
        let c: char = text.get_char(next);
        if 'A' <= c && c <= 'Z' {
            proof {
                lemma_small_letters(c);
            }
            let place: usize = (c as u32 - 0x41) as usize;
            lower.append(letters.substring_char(place, place + 1));
        } else {
            lower.append(text.substring_char(next, next + 1));
        }
        assert(lower@ =~= ascii_lower_text(text@).take(next + 1));
        next += 1;
    }
    assert(ascii_lower_text(text@).take(next as int) =~= ascii_lower_text(text@));
    lower
}

/// `text` with `with` in place of every `from`.
pub open spec fn replaced(text: Seq<char>, from: char, with: Seq<char>) -> Seq<char>
    decreases text.len(),
{
    if text.len() == 0 {
        text
    } else {
        replaced(text.drop_last(), from, with) + if text.last() == from {
            with
        } else {
            seq![text.last()]
        }
    }
}

/// Replaces a character by text.
pub(crate) fn replace_all(text: &str, from: char, with: &str) -> (result: String)
    ensures
        result@ == replaced(text@, from, with@),
{
    let mut result = String::new();
    let count: usize = text.unicode_len();
    let mut next: usize = 0;
    assert(result@ =~= text@.take(0));
    while next < count
        invariant
            next <= count == text@.len(),
            result@ == replaced(text@.take(next as int), from, with@),
        decreases count - next,
    {
        let c: char = text.get_char(next);
        assert(text@.take(next + 1).drop_last() =~= text@.take(next as int));
        if c == from {
            result.append(with);
        } else {
            result.append(text.substring_char(next, next + 1));
            assert(text@.subrange(next as int, next + 1) =~= seq![c]);
        }
        next += 1;
    }
    assert(text@.take(next as int) =~= text@);
    result
}

/// Replacing a character by another one changes the text character by character.
pub(crate) proof fn lemma_replaced_by_char(text: Seq<char>, from: char, to: char)
    ensures
        replaced(text, from, seq![to]) == text.map_values(
            |c: char|
                if c == from {
                    to
                } else {
                    c
                },
        ),
    decreases text.len(),
{
    let changed = text.map_values(
        |c: char|
            if c == from {
                to
            } else {
                c
            },
    );
    if text.len() > 0 {
        lemma_replaced_by_char(text.drop_last(), from, to);
        assert(replaced(text, from, seq![to]) =~= changed);
    } else {
        assert(text =~= changed);
    }
}

/// The decimal digit for `n` below ten.
pub open spec fn digit(n: nat) -> char {
    (0x30 + n) as char
}

/// `n` in decimal notation, without leading zeros.
pub open spec fn decimal(n: nat) -> Seq<char>
    decreases n,
{
    if n < 10 {
        seq![digit(n)]
    } else {
        decimal(n / 10).push(digit(n % 10))
    }
}

/// Appends text.
pub(crate) fn push_text(text: &mut String, more: &str)
    ensures
        final(text)@ == old(text)@ + more@,
{
    text.append(more);
}

/// The ten digits.
proof fn lemma_digits(n: nat)
    requires
        n < 10,
    ensures
        "0123456789"@.len() == 10,
        "0123456789"@[n as int] == digit(n),
{
    reveal_strlit("0123456789");
}

/// Appends a number in decimal notation.
pub(crate) fn push_number(text: &mut String, n: u64)
    ensures
        final(text)@ == old(text)@ + decimal(n as nat),
    decreases n,
{
    let ghost before = text@;
    if n >= 10 {
        push_number(text, n / 10);
    }
    let place: usize = (n % 10) as usize;
    proof {
        lemma_digits(place as nat);
    }
    text.append("0123456789".substring_char(place, place + 1));
    assert(text@ =~= before + decimal(n as nat));
}

/// A copy of `values`.
pub(crate) fn copy_all<T: Copy>(values: &Vec<T>) -> (copy: Vec<T>)
    ensures
        copy@ == values@,
{
    let mut copy: Vec<T> = Vec::new();
    let mut next: usize = 0;
    while next < values.len()
        invariant
            next <= values@.len(),
            copy@ == values@.take(next as int),
        decreases values@.len() - next,
    {
        copy.push(values[next]);
        assert(copy@ =~= values@.take(next + 1));
        next += 1;
    }
    assert(copy@ =~= values@);
    copy
}

/// The number that digits stand for.
pub open spec fn number_of(digits: Seq<char>) -> int
    decreases digits.len(),
{
    if digits.len() == 0 {
        0
    } else {
        10 * number_of(digits.drop_last()) + (digits.last() as int - '0' as int)
    }
}

/// A number in decimal notation consists of digits, reads as the number, and has no zero in
/// front but for zero itself.
pub proof fn lemma_decimals_read_as_their_number(n: nat)
    ensures
        decimal(n).len() > 0,
        forall|i: int| 0 <= i < decimal(n).len() ==> '0' <= #[trigger] decimal(n)[i] <= '9',
        number_of(decimal(n)) == n,
        n > 0 ==> decimal(n)[0] != '0',
    decreases n,
{
    assert('0' as int == 0x30 && '9' as int == 0x39);
    if n < 10 {
        assert(decimal(n).drop_last() =~= Seq::<char>::empty());
        assert(number_of(Seq::<char>::empty()) == 0);
        assert(decimal(n).last() as int == 0x30 + n);
    } else {
        lemma_decimals_read_as_their_number(n / 10);
        let front = decimal(n / 10);
        let all = decimal(n);
        assert(all == front.push(digit(n % 10)));
        assert(all.drop_last() =~= front);
        assert(all.last() as int == 0x30 + n % 10);
        assert forall|i: int| 0 <= i < all.len() implies '0' <= #[trigger] all[i] <= '9' by {
            if i < front.len() {
                assert(all[i] == front[i]);
            }
        }
        assert(all[0] == front[0]);
    }
}

/// What is left of a text without the white space around it: a part of the text that
/// neither begins nor ends with white space, and nothing but white space beside it.
pub proof fn lemma_trimming_leaves_the_middle(text: Seq<char>) -> (range: (int, int))
    ensures
        0 <= range.0 <= range.1 <= text.len(),
        trim_spec(text) == text.subrange(range.0, range.1),
        forall|i: int|
            0 <= i < text.len() && !(range.0 <= i < range.1) ==> is_white_space(
                #[trigger] text[i],
            ),
        trim_spec(text).len() > 0 ==> !is_white_space(trim_spec(text)[0]) && !is_white_space(
            trim_spec(text).last(),
        ),
{
    let start = lemma_trimmed_start(text);
    let rest = trim_start_spec(text);
    let len = lemma_trimmed_end(rest);
    let range = (start, start + len);
    assert(trim_spec(text) =~= text.subrange(range.0, range.1));
    assert forall|i: int|
        0 <= i < text.len() && !(range.0 <= i < range.1) implies is_white_space(
        #[trigger] text[i],
    ) by {
        if i >= range.1 {
            assert(rest[i - start] == text[i]);
        }
    }
    range
}

proof fn lemma_trimmed_start(text: Seq<char>) -> (start: int)
    ensures
        0 <= start <= text.len(),
        trim_start_spec(text) == text.skip(start),
        forall|i: int| 0 <= i < start ==> is_white_space(#[trigger] text[i]),
        start < text.len() ==> !is_white_space(text[start]),
    decreases text.len(),
{
    if text.len() > 0 && is_white_space(text[0]) {
        let rest = text.drop_first();
        let start = lemma_trimmed_start(rest) + 1;
        assert(rest.skip(start - 1) =~= text.skip(start));
        assert forall|i: int| 0 <= i < start implies is_white_space(#[trigger] text[i]) by {
            if i > 0 {
                assert(rest[i - 1] == text[i]);
            }
        }
        if start < text.len() {
            assert(rest[start - 1] == text[start]);
        }
        start
    } else {
        assert(text.skip(0) =~= text);
        0
    }
}

proof fn lemma_trimmed_end(text: Seq<char>) -> (len: int)
    ensures
        0 <= len <= text.len(),
        trim_end_spec(text) == text.take(len),
        forall|i: int| len <= i < text.len() ==> is_white_space(#[trigger] text[i]),
        len > 0 ==> !is_white_space(text[len - 1]),
    decreases text.len(),
{
    if text.len() > 0 && is_white_space(text.last()) {
        let rest = text.drop_last();
        let len = lemma_trimmed_end(rest);
        assert(rest.take(len) =~= text.take(len));
        assert forall|i: int| len <= i < text.len() implies is_white_space(#[trigger] text[i]) by {
            if i < rest.len() {
                assert(rest[i] == text[i]);
            }
        }
        len
    } else {
        assert(text.take(text.len() as int) =~= text);
        text.len() as int
    }
}

/// The characters that count as white space are the blanks, tabs and line ends, and their
/// kin; those that are seen are none of them.
pub proof fn lemma_white_space_is_not_seen(c: char)
    ensures
        c == ' ' || c == '\t' || c == '\n' || c == '\r' ==> is_white_space(c),
        '!' <= c <= '~' ==> !is_white_space(c),
{
}

/// Capitals of the ASCII alphabet become the small letters 32 places on, one for one, and all
/// else stays.
pub proof fn lemma_only_capitals_are_changed(text: Seq<char>, i: int)
    requires
        0 <= i < text.len(),
    ensures
        ascii_lower_text(text).len() == text.len(),
        'A' <= text[i] <= 'Z' ==> ascii_lower_text(text)[i] as u32 == text[i] as u32 + 32,
        !('A' <= text[i] <= 'Z') ==> ascii_lower_text(text)[i] == text[i],
{
}

} // verus!
