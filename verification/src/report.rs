//! Texts that report on a bake, and texts that are read from a command line.

use crate::atlas::AtlasMetadata;
use crate::config::{product, ResolvedBakeConfig};
use crate::math::Vec3;
use crate::scalar::Scalar;
use crate::stats::GpuBakeStats;
use crate::text::{decimal, push_number, push_text, trim, trim_spec};
use vstd::prelude::*;
use vstd::string::*;

verus! {

/// A number as text.
pub open spec fn number(n: int) -> Seq<char> {
    decimal(n as nat)
}

/// The line on the image.
pub fn image_line(stats: &GpuBakeStats) -> (line: String)
    ensures
        line@ == "  image: "@ + number(stats.width as int) + "x"@ + number(stats.height as int)
            + " ("@ + number(stats.width * stats.height) + " pixels)"@,
{
    let pixel_count: u64 = product(stats.width, stats.height);
    let mut line = "  image: ".to_owned();
    push_number(&mut line, stats.width as u64);
    push_text(&mut line, "x");
    push_number(&mut line, stats.height as u64);
    push_text(&mut line, " (");
    push_number(&mut line, pixel_count);
    push_text(&mut line, " pixels)");
    line
}

/// The line on the mode, the camera tile and the light grid.
pub fn mode_line(config: &ResolvedBakeConfig) -> (line: String)
    requires
        config.lights() <= u32::MAX,
    ensures
        line@ == "  mode: "@ + config.mode.name() + ", camera tile "@ + number(
            config.tile_columns() as int,
        ) + "x"@ + number(config.height as int) + ", light grid "@ + number(
            config.light_columns() as int,
        ) + "x"@ + number(config.light_rows() as int) + " ("@ + number(config.lights())
            + " light directions)"@,
{
    let mut line = "  mode: ".to_owned();
    push_text(&mut line, config.mode.as_str());
    push_text(&mut line, ", camera tile ");
    push_number(&mut line, config.camera_tile_width() as u64);
    push_text(&mut line, "x");
    push_number(&mut line, config.camera_tile_height() as u64);
    push_text(&mut line, ", light grid ");
    push_number(&mut line, config.effective_light_width() as u64);
    push_text(&mut line, "x");
    push_number(&mut line, config.effective_light_height() as u64);
    push_text(&mut line, " (");
    push_number(&mut line, config.light_count() as u64);
    push_text(&mut line, " light directions)");
    line
}

/// The line on the geometry.
pub fn geometry_line(stats: &GpuBakeStats) -> (line: String)
    ensures
        line@ == "  geometry: "@ + number(stats.triangle_count as int) + " triangles, "@ + number(
            stats.bvh_node_count as int,
        ) + " BVH nodes"@,
{
    let mut line = "  geometry: ".to_owned();
    push_number(&mut line, stats.triangle_count as u64);
    push_text(&mut line, " triangles, ");
    push_number(&mut line, stats.bvh_node_count as u64);
    push_text(&mut line, " BVH nodes");
    line
}

/// The line on the samples.
pub fn sampling_line(config: &ResolvedBakeConfig, stats: &GpuBakeStats) -> (line: String)
    ensures
        line@ == "  sampling: "@ + number(stats.samples as int) + " samples/pixel, "@
            + config.sampler.name() + ", "@ + number(stats.camera_ray_count as int)
            + " camera rays, max repeat radius "@ + number(stats.max_repeat_radius as int)
            + ", max "@ + number(stats.max_periodic_copies_per_ray as int)
            + " periodic copies/ray"@,
{
    let mut line = "  sampling: ".to_owned();
    push_number(&mut line, stats.samples as u64);
    push_text(&mut line, " samples/pixel, ");
    push_text(&mut line, config.sampler.as_str());
    push_text(&mut line, ", ");
    push_number(&mut line, stats.camera_ray_count);
    push_text(&mut line, " camera rays, max repeat radius ");
    push_number(&mut line, stats.max_repeat_radius as u64);
    push_text(&mut line, ", max ");
    push_number(&mut line, stats.max_periodic_copies_per_ray);
    push_text(&mut line, " periodic copies/ray");
    line
}

/// The line on shadows.
pub fn shadows_line(config: &ResolvedBakeConfig) -> (line: &'static str)
    ensures
        line@ == if config.enable_shadows {
            "  shadows: enabled"@
        } else {
            "  shadows: disabled"@
        },
{
    if config.enable_shadows {
        "  shadows: enabled"
    } else {
        "  shadows: disabled"
    }
}

/// What the number of traces counts.
pub open spec fn trace_label(config: ResolvedBakeConfig) -> Seq<char> {
    if config.enable_shadows {
        "including shadows"@
    } else {
        "camera visibility only"@
    }
}

/// The line on the dispatches: waves of samples where lanes share them, else
/// chunks of rows.
pub open spec fn dispatch_text(config: ResolvedBakeConfig, stats: GpuBakeStats) -> Seq<char> {
    if stats.sample_lanes > 1 {
        "  dispatch: "@ + number(stats.dispatch_count as int) + " sample waves, "@ + number(
            stats.rows_per_dispatch as int,
        ) + " rows/wave, up to "@ + number(stats.sample_lanes as int) + " sample lanes x "@
            + number(stats.samples_per_lane as int) + " samples/lane, max "@ + number(
            stats.max_bvh_traces as int,
        ) + " BVH traces ("@ + trace_label(config) + ")"@
    } else {
        "  dispatch: "@ + number(stats.dispatch_count as int) + " row chunks, "@ + number(
            stats.rows_per_dispatch as int,
        ) + " rows/chunk, max "@ + number(stats.max_bvh_traces as int) + " BVH traces ("@
            + trace_label(config) + ")"@
    }
}

/// The line on the dispatches.
pub fn dispatch_line(config: &ResolvedBakeConfig, stats: &GpuBakeStats) -> (line: String)
    ensures
        line@ == dispatch_text(*config, *stats),
{
    let label = if config.enable_shadows {
        "including shadows"
    } else {
        "camera visibility only"
    };
    let mut line = "  dispatch: ".to_owned();
    push_number(&mut line, stats.dispatch_count as u64);
    if stats.sample_lanes > 1 {
        push_text(&mut line, " sample waves, ");
        push_number(&mut line, stats.rows_per_dispatch as u64);
        push_text(&mut line, " rows/wave, up to ");
        push_number(&mut line, stats.sample_lanes as u64);
        push_text(&mut line, " sample lanes x ");
        push_number(&mut line, stats.samples_per_lane as u64);
        push_text(&mut line, " samples/lane, max ");
    } else {
        push_text(&mut line, " row chunks, ");
        push_number(&mut line, stats.rows_per_dispatch as u64);
        push_text(&mut line, " rows/chunk, max ");
    }
    push_number(&mut line, stats.max_bvh_traces);
    push_text(&mut line, " BVH traces (");
    push_text(&mut line, label);
    push_text(&mut line, ")");
    line
}

/// Why an atlas is refused whose image has another size than its layout says.
pub fn size_mismatch_message(width: u32, height: u32, metadata: &AtlasMetadata) -> (message: String)
    ensures
        message@ == "atlas dimensions "@ + number(width as int) + "x"@ + number(height as int)
            + " do not match metadata "@ + number(metadata.atlas_width as int) + "x"@ + number(
            metadata.atlas_height as int,
        ),
{
    let mut message = "atlas dimensions ".to_owned();
    push_number(&mut message, width as u64);
    push_text(&mut message, "x");
    push_number(&mut message, height as u64);
    push_text(&mut message, " do not match metadata ");
    push_number(&mut message, metadata.atlas_width as u64);
    push_text(&mut message, "x");
    push_number(&mut message, metadata.atlas_height as u64);
    message
}

/// The pieces of a text between separators.
pub open spec fn split_at(text: Seq<char>, separator: char) -> Seq<Seq<char>>
    decreases text.len(),
{
    if text.len() == 0 {
        seq![Seq::empty()]
    } else {
        let before = split_at(text.drop_last(), separator);
        if text.last() == separator {
            before.push(Seq::empty())
        } else {
            before.drop_last().push(before.last().push(text.last()))
        }
    }
}

/// Texts without white space around them.
pub open spec fn trimmed_pieces(pieces: Seq<Seq<char>>) -> Seq<Seq<char>> {
    pieces.map_values(|piece: Seq<char>| trim_spec(piece))
}

/// The pieces of a text between commas, without white space around them.
pub open spec fn components_spec(text: Seq<char>) -> Seq<Seq<char>> {
    trimmed_pieces(split_at(text, ','))
}

/// The views of some texts.
pub open spec fn text_views(texts: Seq<String>) -> Seq<Seq<char>> {
    texts.map_values(|text: String| text@)
}

proof fn lemma_push_piece(parts: Seq<String>, piece: String, pieces: Seq<Seq<char>>)
    requires
        pieces.len() > 0,
        text_views(parts) == trimmed_pieces(pieces.drop_last()),
        piece@ == trim_spec(pieces.last()),
    ensures
        text_views(parts.push(piece)) == trimmed_pieces(pieces),
{
    let views = text_views(parts.push(piece));
    let wanted = trimmed_pieces(pieces);
    assert(text_views(parts).len() == parts.len());
    assert forall|i: int| 0 <= i < views.len() implies views[i] == wanted[i] by {
        if i < parts.len() {
            assert(text_views(parts)[i] == trimmed_pieces(pieces.drop_last())[i]);
        }
    }
    assert(views =~= wanted);
}

/// The pieces of a text between commas, without white space around them.
pub fn components(value: &str) -> (parts: Vec<String>)
    ensures
        text_views(parts@) == components_spec(value@),
{
    let ghost whole = value@;
    let count: usize = value.unicode_len();
    let mut parts: Vec<String> = Vec::new();
    let mut start: usize = 0;
    let mut next: usize = 0;
    assert(whole.take(0) =~= Seq::<char>::empty());
    assert(split_at(whole.take(0), ',').drop_last() =~= Seq::<Seq<char>>::empty());
    assert(text_views(parts@) =~= trimmed_pieces(Seq::<Seq<char>>::empty()));
    assert(whole.subrange(0, 0) =~= Seq::<char>::empty());
    while next < count
        invariant
            whole == value@,
            count == whole.len(),
            start <= next <= count,
            split_at(whole.take(next as int), ',').len() > 0,
            split_at(whole.take(next as int), ',').last() == whole.subrange(
                start as int,
                next as int,
            ),
            text_views(parts@) == trimmed_pieces(
                split_at(whole.take(next as int), ',').drop_last(),
            ),
        decreases count - next,
    {
        let ghost pieces = split_at(whole.take(next as int), ',');
        let ghost seen = whole.take(next + 1);
        assert(seen.drop_last() =~= whole.take(next as int));
        let c: char = value.get_char(next);
        if c == ',' {
            let piece = trim(value.substring_char(start, next)).to_owned();
            proof {
                lemma_push_piece(parts@, piece, pieces);
                assert(split_at(seen, ',').drop_last() =~= pieces);
            }
            parts.push(piece);
            start = next + 1;
            assert(whole.subrange(start as int, start as int) =~= Seq::<char>::empty());
        } else {
            proof {
                assert(split_at(seen, ',').drop_last() =~= pieces.drop_last());
                assert(whole.subrange(start as int, next + 1) =~= whole.subrange(
                    start as int,
                    next as int,
                ).push(c));
            }
        }
        next += 1;
    }
    assert(whole.take(count as int) =~= whole);
    let last = trim(value.substring_char(start, count)).to_owned();
    proof {
        lemma_push_piece(parts@, last, split_at(whole, ','));
    }
    parts.push(last);
    parts
}

/// The vector with the given components, as far as they can be read: `read`
/// holds what each of the `parts` was read as, in order.
pub open spec fn vec3_from(
    parts: Seq<Seq<char>>,
    read: Seq<Option<Scalar>>,
) -> Result<Vec3, Seq<char>> {
    if parts.len() != 3 {
        Err("expected x,y,z"@)
    } else if read[0] is None {
        Err("invalid float component `"@ + parts[0] + "`"@)
    } else if read[1] is None {
        Err("invalid float component `"@ + parts[1] + "`"@)
    } else if read[2] is None {
        Err("invalid float component `"@ + parts[2] + "`"@)
    } else {
        Ok(Vec3 { x: read[0].unwrap(), y: read[1].unwrap(), z: read[2].unwrap() })
    }
}

/// The message for a component that cannot be read.
fn invalid_component(part: &str) -> (message: String)
    ensures
        message@ == "invalid float component `"@ + part@ + "`"@,
{
    let mut message = "invalid float component `".to_owned();
    push_text(&mut message, part);
    push_text(&mut message, "`");
    message
}

/// Puts a vector together from three texts and the numbers that were read from
/// them.
pub fn assemble_vec3(parts: &Vec<String>, read: &Vec<Option<Scalar>>) -> (vector: Result<
    Vec3,
    String,
>)
    requires
        parts@.len() == read@.len(),
    ensures
        match vec3_from(text_views(parts@), read@) {
            Ok(found) => vector == Ok::<Vec3, String>(found),
            Err(message) => vector matches Err(text) && text@ == message,
        },
{
    let ghost views = text_views(parts@);
    if parts.len() != 3 {
        return Err("expected x,y,z".to_owned());
    }
    assert(views[0] == parts@[0]@ && views[1] == parts@[1]@ && views[2] == parts@[2]@);
    let x = match read[0] {
        Some(x) => x,
        None => return Err(invalid_component(parts[0].as_str())),
    };
    let y = match read[1] {
        Some(y) => y,
        None => return Err(invalid_component(parts[1].as_str())),
    };
    let z = match read[2] {
        Some(z) => z,
        None => return Err(invalid_component(parts[2].as_str())),
    };
    Ok(Vec3 { x, y, z })
}

/// The text that pieces make with separators between them.
pub open spec fn joined(pieces: Seq<Seq<char>>, separator: char) -> Seq<char>
    decreases pieces.len(),
{
    if pieces.len() == 0 {
        Seq::empty()
    } else if pieces.len() == 1 {
        pieces[0]
    } else {
        joined(pieces.drop_last(), separator).push(separator) + pieces.last()
    }
}

/// The pieces of a text are what is between its separators: no piece has a separator in it,
/// and with separators between them they are the text again.
pub proof fn lemma_pieces_make_the_text(text: Seq<char>, separator: char)
    ensures
        split_at(text, separator).len() > 0,
        joined(split_at(text, separator), separator) == text,
        forall|p: int|
            0 <= p < split_at(text, separator).len() ==> !(#[trigger] split_at(
                text,
                separator,
            )[p]).contains(separator),
    decreases text.len(),
{
    let pieces = split_at(text, separator);
    if text.len() == 0 {
        assert(joined(pieces, separator) =~= text);
    } else {
        let front = text.drop_last();
        let before = split_at(front, separator);
        lemma_pieces_make_the_text(front, separator);
        let c = text.last();
        if c == separator {
            assert(pieces.drop_last() =~= before);
            assert(joined(pieces, separator) =~= text);
            assert forall|p: int| 0 <= p < pieces.len() implies !(#[trigger] pieces[p]).contains(
                separator,
            ) by {
                if p < before.len() {
                    assert(pieces[p] == before[p]);
                }
            }
        } else {
            assert(pieces.drop_last() =~= before.drop_last());
            assert(pieces.last() == before.last().push(c));
            if before.len() == 1 {
                assert(joined(pieces, separator) =~= text);
            } else {
                assert(joined(pieces, separator) =~= joined(before, separator).push(c));
                assert(joined(pieces, separator) =~= text);
            }
            assert forall|p: int| 0 <= p < pieces.len() implies !(#[trigger] pieces[p]).contains(
                separator,
            ) by {
                if p < before.len() - 1 {
                    assert(pieces[p] == before[p]);
                } else {
                    assert(!before[before.len() - 1].contains(separator));
                    let last = before.last();
                    assert forall|i: int| 0 <= i < pieces[p].len() implies pieces[p][i]
                        != separator by {
                        if i < last.len() {
                            assert(last[i] != separator) by {
                                assert(!last.contains(separator));
                            }
                        }
                    }
                }
            }
        }
    }
}

/// A vector is read from exactly three pieces between commas, the first for x, the second for
/// y and the third for z; the first that cannot be read is named.
pub proof fn lemma_vectors_are_read_in_order(
    text: Seq<char>,
    parts: Seq<Seq<char>>,
    read: Seq<Option<Scalar>>,
)
    ensures
        components_spec(text).len() == split_at(text, ',').len(),
        forall|i: int|
            0 <= i < components_spec(text).len() ==> #[trigger] components_spec(text)[i]
                == trim_spec(split_at(text, ',')[i]),
        parts.len() != 3 ==> vec3_from(parts, read) == Err::<Vec3, Seq<char>>("expected x,y,z"@),
        parts.len() == 3 ==> match vec3_from(parts, read) {
            Ok(vector) => read[0] == Some(vector.x) && read[1] == Some(vector.y) && read[2]
                == Some(vector.z),
            Err(message) => exists|i: int|
                0 <= i < 3 && #[trigger] read[i] is None && (forall|j: int|
                    0 <= j < i ==> #[trigger] read[j] is Some) && message
                    == "invalid float component `"@ + parts[i] + "`"@,
        },
{
    if parts.len() == 3 {
        if read[0] is None {
        } else if read[1] is None {
            assert(forall|j: int| 0 <= j < 1 ==> #[trigger] read[j] is Some);
        } else if read[2] is None {
            assert(forall|j: int| 0 <= j < 2 ==> #[trigger] read[j] is Some);
        }
    }
}

/// What the line on the dispatches says: with more than one lane the waves and lanes of
/// samples, else the chunks of rows; and whether the traces are those with shadows.
pub proof fn lemma_dispatches_are_told_by_lanes(config: ResolvedBakeConfig, stats: GpuBakeStats)
    ensures
        ({
            let traced = if config.enable_shadows {
                "including shadows"@
            } else {
                "camera visibility only"@
            };
            let count = decimal(stats.dispatch_count as nat);
            let rows = decimal(stats.rows_per_dispatch as nat);
            let lanes = decimal(stats.sample_lanes as nat);
            let samples = decimal(stats.samples_per_lane as nat);
            let traces = decimal(stats.max_bvh_traces as nat);
            &&& stats.sample_lanes > 1 ==> dispatch_text(config, stats) == "  dispatch: "@ + count
                + " sample waves, "@ + rows + " rows/wave, up to "@ + lanes
                + " sample lanes x "@ + samples + " samples/lane, max "@ + traces
                + " BVH traces ("@ + traced + ")"@
            &&& stats.sample_lanes <= 1 ==> dispatch_text(config, stats) == "  dispatch: "@ + count
                + " row chunks, "@ + rows + " rows/chunk, max "@ + traces + " BVH traces ("@
                + traced + ")"@
        }),
{
}

} // verus!
