//! The writing-format converter: dialogue lines get the display name of
//! their speaker in place of the speaker code.

use crate::error::ConversionError;
use crate::line::{
    classify, classify_spec, lemma_classify_named, render_spec, LineModel, ScriptLine, Speaker,
    SpeakerModel,
};
use crate::speakers::{codes_of, lookup, valid_name, SpeakerRegistry};
use crate::text::lemma_first_index_props;
use vstd::prelude::*;

verus! {

/// What one line becomes: a dialogue line with a speaker code gets the
/// code's display name, or `None` when the code is unknown; every other line
/// stays as it is.
pub open spec fn writing_line(m: Seq<(Seq<char>, Seq<char>)>, s: Seq<char>) -> Option<Seq<char>> {
    match classify_spec(s) {
        LineModel::Dialogue { speaker: SpeakerModel::Code(c), text } => match lookup(m, c) {
            Some(n) => Some(
                render_spec(LineModel::Dialogue { speaker: SpeakerModel::Name(n), text }),
            ),
            None => None,
        },
        _ => Some(s),
    }
}

pub open spec fn written_line(m: Seq<(Seq<char>, Seq<char>)>, s: Seq<char>) -> Seq<char> {
    match writing_line(m, s) {
        Some(o) => o,
        None => s,
    }
}

/// Every line of `lines` can be converted.
pub open spec fn writing_ok(m: Seq<(Seq<char>, Seq<char>)>, lines: Seq<Seq<char>>) -> bool {
    forall|i: int| 0 <= i < lines.len() ==> (#[trigger] writing_line(m, lines[i])) is Some
}

/// The converted lines.
pub open spec fn writing_out(m: Seq<(Seq<char>, Seq<char>)>, lines: Seq<Seq<char>>) -> Seq<
    Seq<char>,
> {
    lines.map_values(|s: Seq<char>| written_line(m, s))
}

/// Line `k` is the first that cannot be converted, and its speaker code is
/// `code`.
pub open spec fn first_unresolved(
    m: Seq<(Seq<char>, Seq<char>)>,
    lines: Seq<Seq<char>>,
    k: int,
    code: Seq<char>,
) -> bool {
    &&& 0 <= k < lines.len()
    &&& writing_line(m, lines[k]) is None
    &&& forall|j: int| 0 <= j < k ==> (#[trigger] writing_line(m, lines[j])) is Some
    &&& classify_spec(lines[k]) matches LineModel::Dialogue { speaker: SpeakerModel::Code(c), .. }
        && c == code
}

/// Converts a whole file's lines. Either every line converts, or the result
/// is the error of the first dialogue line whose code is unknown, and no
/// output is produced.
pub fn convert(speakers: &SpeakerRegistry, lines: &Vec<String>) -> (r: Result<
    Vec<String>,
    ConversionError,
>)
    ensures
        r is Ok <==> writing_ok(speakers.model(), lines.deep_view()),
        r matches Ok(out) ==> out.deep_view() == writing_out(speakers.model(), lines.deep_view()),
        r matches Err(e) ==> (e matches ConversionError::SpeakerResolution { line, code }
            && first_unresolved(speakers.model(), lines.deep_view(), line as int, code@)),
{
    let ghost m = speakers.model();
    let ghost ls = lines.deep_view();
    let mut out: Vec<String> = Vec::new();
    let mut i: usize = 0;
    while i < lines.len()
        invariant
            m == speakers.model(),
            ls == lines.deep_view(),
            i <= lines.len(),
            out.len() == i,
            forall|j: int| 0 <= j < i ==> (#[trigger] writing_line(m, ls[j])) is Some,
            forall|j: int| 0 <= j < i ==> (#[trigger] out@[j])@ == written_line(m, ls[j]),
        decreases lines.len() - i,
    {
        assert(ls[i as int] == lines@[i as int]@);
        let cl = classify(lines[i].as_str());
        match cl {
            ScriptLine::Dialogue { speaker: Speaker::Code(c), text } => {
                let name = match speakers.resolve(c.as_str(), i) {
                    Ok(n) => n,
                    Err(e) => {
                        assert(writing_line(m, ls[i as int]) is None);
                        return Err(e);
                    },
                };
                let o = ScriptLine::Dialogue { speaker: Speaker::Name(name), text }.render();
                out.push(o);
            },
            _ => {
                out.push(lines[i].clone());
            },
        }
        i = i + 1;
    }
    assert(out.deep_view() =~= writing_out(m, ls));
    Ok(out)
}

/// A converted line converts to itself.
pub proof fn lemma_writing_line_fixed(speakers: SpeakerRegistry, s: Seq<char>)
    requires
        speakers.wf(),
        writing_line(speakers.model(), s) is Some,
    ensures
        writing_line(speakers.model(), written_line(speakers.model(), s)) == Some(
            written_line(speakers.model(), s),
        ),
{
    let m = speakers.model();
    if let LineModel::Dialogue { speaker: SpeakerModel::Code(c), text } = classify_spec(s) {
        lemma_first_index_props(codes_of(m), c);
        let i = crate::text::first_index(codes_of(m), c);
        assert(codes_of(m)[i] == m[i].0);
        let n = m[i].1;
        assert(valid_name(n));
        lemma_classify_named(n, text);
    }
}

/// Running the writing converter on its own output changes nothing: the
/// output converts, and converts to itself line for line.
pub proof fn lemma_writing_idempotent(speakers: SpeakerRegistry, lines: Seq<Seq<char>>)
    requires
        speakers.wf(),
        writing_ok(speakers.model(), lines),
    ensures
        writing_ok(speakers.model(), writing_out(speakers.model(), lines)),
        writing_out(speakers.model(), writing_out(speakers.model(), lines)) == writing_out(
            speakers.model(),
            lines,
        ),
{
    let m = speakers.model();
    let w = writing_out(m, lines);
    assert forall|i: int| 0 <= i < w.len() implies #[trigger] writing_line(m, w[i]) == Some(
        w[i],
    ) by {
        assert(writing_line(m, lines[i]) is Some);
        lemma_writing_line_fixed(speakers, lines[i]);
    }
    assert(writing_out(m, w) =~= w);
}

} // verus!
