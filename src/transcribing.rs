//! The transcribing-format converter: every dialogue line gets a tag line
//! above it with the episode, the current scene and a running ordinal.

use crate::error::ConversionError;
use crate::line::{classify, classify_spec, lemma_classify_tag, tag_marker, DirectiveKind,
    LineModel, ScriptLine};
use crate::speakers::SpeakerRegistry;
use crate::text::{dec, push_dec};
use crate::writing::{lemma_writing_line_fixed, writing_line, writing_ok, writing_out};
use vstd::prelude::*;

verus! {

/// Where the converter stands after some lines: the current scene, if one
/// was opened, and the number of dialogue lines tagged so far.
pub struct TxState {
    pub scene: Option<Seq<char>>,
    pub ordinal: nat,
}

/// The arguments of a tag line.
pub open spec fn tag_args(episode: nat, scene: Option<Seq<char>>, ordinal: nat) -> Seq<char> {
    let sc = match scene {
        Some(s) => s,
        None => seq!['-'],
    };
    seq!['e', 'p'] + dec(episode) + seq![' '] + sc + seq![' ', '#'] + dec(ordinal)
}

/// The tag line above a dialogue line.
pub open spec fn tag_line(episode: nat, scene: Option<Seq<char>>, ordinal: nat) -> Seq<char> {
    tag_marker() + tag_args(episode, scene, ordinal)
}

/// One line's effect: old tag lines are dropped; a scene directive with no
/// name is malformed (`None`); a scene directive opens its scene; a dialogue
/// line gets a tag line with the next ordinal; anything else is kept.
pub open spec fn tx_step(episode: nat, st: TxState, s: Seq<char>) -> Option<
    (TxState, Seq<Seq<char>>),
> {
    match classify_spec(s) {
        LineModel::Directive { kind: DirectiveKind::Tag, .. } => Some((st, Seq::empty())),
        LineModel::Directive { kind: DirectiveKind::Scene, args } => if args.len() == 0 {
            None
        } else {
            Some((TxState { scene: Some(args), ordinal: st.ordinal }, seq![s]))
        },
        LineModel::Dialogue { .. } => Some(
            (
                TxState { scene: st.scene, ordinal: st.ordinal + 1 },
                seq![tag_line(episode, st.scene, st.ordinal + 1), s],
            ),
        ),
        _ => Some((st, seq![s])),
    }
}

/// The transcript of `lines` with the state it ends in, or `None` when a
/// line is malformed.
pub open spec fn tx(episode: nat, lines: Seq<Seq<char>>) -> Option<(TxState, Seq<Seq<char>>)>
    decreases lines.len(),
{
    if lines.len() == 0 {
        Some((TxState { scene: None, ordinal: 0 }, Seq::empty()))
    } else {
        match tx(episode, lines.drop_last()) {
            None => None,
            Some((st, out)) => match tx_step(episode, st, lines.last()) {
                None => None,
                Some((st2, e)) => Some((st2, out + e)),
            },
        }
    }
}

proof fn lemma_tx_none_extends(episode: nat, lines: Seq<Seq<char>>, k: int)
    requires
        0 <= k <= lines.len(),
        tx(episode, lines.take(k)) is None,
    ensures
        tx(episode, lines) is None,
    decreases lines.len(),
{
    if k == lines.len() {
        assert(lines.take(k) =~= lines);
    } else {
        assert(lines.drop_last().take(k) =~= lines.take(k));
        lemma_tx_none_extends(episode, lines.drop_last(), k);
    }
}

/// The ordinal never exceeds the number of lines read.
proof fn lemma_tx_ordinal(episode: nat, lines: Seq<Seq<char>>)
    ensures
        tx(episode, lines) matches Some((st, _)) ==> st.ordinal <= lines.len(),
    decreases lines.len(),
{
    if lines.len() > 0 {
        lemma_tx_ordinal(episode, lines.drop_last());
    }
}

spec fn opt_view(o: &Option<String>) -> Option<Seq<char>> {
    match o {
        Some(s) => Some(s@),
        None => None,
    }
}

/// Converts a file's lines into the transcript. Fails with `DirectiveParse`
/// at the first scene directive that has no name.
pub fn convert(episode: u32, lines: &Vec<String>) -> (r: Result<Vec<String>, ConversionError>)
    ensures
        r is Ok <==> tx(episode as nat, lines.deep_view()) is Some,
        r matches Ok(out) ==> tx(episode as nat, lines.deep_view()) matches Some((_, o))
            && out.deep_view() == o,
        r matches Err(e) ==> (e matches ConversionError::DirectiveParse { line } && line
            < lines.len() && tx(episode as nat, lines.deep_view().take(line as int)) is Some
            && tx(episode as nat, lines.deep_view().take(line as int + 1)) is None),
{
    let ghost ep = episode as nat;
    let ghost ls = lines.deep_view();
    let mut out: Vec<String> = Vec::new();
    let mut scene: Option<String> = None;
    let mut ordinal: usize = 0;
    let mut i: usize = 0;
    while i < lines.len()
        invariant
            ep == episode as nat,
            ls == lines.deep_view(),
            i <= lines.len(),
            tx(ep, ls.take(i as int)) matches Some((st, o)) && out.deep_view() == o
                && st.ordinal == ordinal as nat && st.scene == opt_view(&scene),
        decreases lines.len() - i,
    {
        assert(ls.take(i as int + 1).drop_last() =~= ls.take(i as int));
        assert(ls.take(i as int + 1).last() == lines@[i as int]@);
        proof { lemma_tx_ordinal(ep, ls.take(i as int)); }
        let ghost prev = out.deep_view();
        let cl = classify(lines[i].as_str());
        match cl {
            ScriptLine::Directive { kind: DirectiveKind::Tag, .. } => {},
            ScriptLine::Directive { kind: DirectiveKind::Scene, args } => {
                if args.unicode_len() == 0 {
                    proof { lemma_tx_none_extends(ep, ls, i as int + 1); }
                    return Err(ConversionError::DirectiveParse { line: i });
                }
                scene = Some(args);
                out.push(lines[i].clone());
                assert(out.deep_view() =~= prev + seq![lines@[i as int]@]);
            },
            ScriptLine::Dialogue { .. } => {
                ordinal = ordinal + 1;
                let mut tag = "## ep".to_owned();
                push_dec(&mut tag, episode as usize);
                crate::text::push_char(&mut tag, ' ');
                match &scene {
                    Some(s) => tag.append(s.as_str()),
                    None => crate::text::push_char(&mut tag, '-'),
                }
                tag.append(" #");
                push_dec(&mut tag, ordinal);
                proof {
                    reveal_strlit("## ep");
                    reveal_strlit(" #");
                    reveal_strlit("## ");
                    assert(tag@ =~= tag_line(ep, opt_view(&scene), ordinal as nat));
                }
                let ghost tv = tag@;
                out.push(tag);
                out.push(lines[i].clone());
                assert(out.deep_view() =~= prev + seq![tv, lines@[i as int]@]);
            },
            _ => {
                out.push(lines[i].clone());
                assert(out.deep_view() =~= prev + seq![lines@[i as int]@]);
            },
        }
        i = i + 1;
    }
    assert(ls.take(i as int) =~= ls);
    Ok(out)
}

/// Running the transcribing converter on its own output changes nothing:
/// old tag lines are dropped and the same ones are made again.
pub proof fn lemma_transcribing_idempotent(episode: u32, lines: Seq<Seq<char>>)
    requires
        tx(episode as nat, lines) is Some,
    ensures
        tx(episode as nat, lines) matches Some((st, o)) && tx(episode as nat, o) == Some((st, o)),
    decreases lines.len(),
{
    let ep = episode as nat;
    if lines.len() > 0 {
        let l0 = lines.drop_last();
        let x = lines.last();
        lemma_transcribing_idempotent(episode, l0);
        let (st0, o0) = tx(ep, l0)->Some_0;
        let (st, e) = tx_step(ep, st0, x)->Some_0;
        let o = o0 + e;
        if e.len() == 1 {
            assert(o.drop_last() =~= o0);
            assert(o.last() == x);
        } else if e.len() == 2 {
            let t = e[0];
            lemma_classify_tag(tag_args(ep, st0.scene, st0.ordinal + 1));
            assert(o.drop_last() =~= o0.push(t));
            assert(o0.push(t).drop_last() =~= o0);
            assert(o.last() == x);
            assert(o0 + Seq::<Seq<char>>::empty() =~= o0);
            assert(classify_spec(t) is Directive);
            assert(tx_step(ep, st0, t) == Some((st0, Seq::<Seq<char>>::empty())));
            assert(tx(ep, o0.push(t)) == Some((st0, o0)));
            assert(tx(ep, o) == Some((st, o)));
        } else {
            assert(o =~= o0);
        }
    }
}

/// The dialogue lines of a script, as speaker and text, in order.
pub open spec fn dialogues(lines: Seq<Seq<char>>) -> Seq<LineModel>
    decreases lines.len(),
{
    if lines.len() == 0 {
        Seq::empty()
    } else {
        let rest = dialogues(lines.drop_last());
        if classify_spec(lines.last()) is Dialogue {
            rest.push(classify_spec(lines.last()))
        } else {
            rest
        }
    }
}

/// The transcript holds the dialogue of its source, in order, and keeps
/// fixed points of the writing converter fixed.
proof fn lemma_tx_keeps(speakers: SpeakerRegistry, episode: nat, lines: Seq<Seq<char>>)
    requires
        tx(episode, lines) is Some,
        forall|j: int|
            0 <= j < lines.len() ==> (#[trigger] writing_line(speakers.model(), lines[j]))
                == Some(lines[j]),
    ensures
        tx(episode, lines) matches Some((_, o)) && dialogues(o) == dialogues(lines) && (forall|
            k: int,
        |
            0 <= k < o.len() ==> (#[trigger] writing_line(speakers.model(), o[k])) == Some(o[k])),
    decreases lines.len(),
{
    let m = speakers.model();
    if lines.len() > 0 {
        let l0 = lines.drop_last();
        let x = lines.last();
        assert forall|j: int| 0 <= j < l0.len() implies (#[trigger] writing_line(m, l0[j]))
            == Some(l0[j]) by {
            assert(l0[j] == lines[j]);
        }
        lemma_tx_keeps(speakers, episode, l0);
        assert(writing_line(m, lines[lines.len() - 1]) == Some(x));
        let (st0, o0) = tx(episode, l0)->Some_0;
        let (st, e) = tx_step(episode, st0, x)->Some_0;
        let o = o0 + e;
        if e.len() == 1 {
            assert(o.drop_last() =~= o0);
            assert(o.last() == x);
            assert forall|k: int| 0 <= k < o.len() implies (#[trigger] writing_line(m, o[k]))
                == Some(o[k]) by {
                if k < o0.len() {
                    assert(o[k] == o0[k]);
                }
            }
        } else if e.len() == 2 {
            let t = e[0];
            lemma_classify_tag(tag_args(episode, st0.scene, st0.ordinal + 1));
            assert(o.drop_last() =~= o0.push(t));
            assert(o0.push(t).drop_last() =~= o0);
            assert(o.last() == x);
            assert(classify_spec(t) is Directive);
            assert(writing_line(m, t) == Some(t));
            assert(dialogues(o0.push(t)) == dialogues(o0));
            assert(dialogues(o) == dialogues(lines));
            assert forall|k: int| 0 <= k < o.len() implies (#[trigger] writing_line(m, o[k]))
                == Some(o[k]) by {
                if k < o0.len() {
                    assert(o[k] == o0[k]);
                } else if k == o0.len() {
                    assert(o[k] == t);
                }
            }
        } else {
            assert(o =~= o0);
        }
    }
}

/// Writing, then transcribing, then writing again keeps every dialogue line
/// with its speaker and text, in order: the second writing pass succeeds
/// and changes nothing, and the transcript carries exactly the dialogue of
/// the first pass.
pub proof fn lemma_round_trip(speakers: SpeakerRegistry, episode: u32, lines: Seq<Seq<char>>)
    requires
        speakers.wf(),
        writing_ok(speakers.model(), lines),
        tx(episode as nat, writing_out(speakers.model(), lines)) is Some,
    ensures
        tx(episode as nat, writing_out(speakers.model(), lines)) matches Some((_, t)) && writing_ok(
            speakers.model(),
            t,
        ) && writing_out(speakers.model(), t) == t && dialogues(t) == dialogues(
            writing_out(speakers.model(), lines),
        ),
{
    let m = speakers.model();
    let w = writing_out(m, lines);
    assert forall|j: int| 0 <= j < w.len() implies (#[trigger] writing_line(m, w[j])) == Some(
        w[j],
    ) by {
        assert(writing_line(m, lines[j]) is Some);
        lemma_writing_line_fixed(speakers, lines[j]);
    }
    lemma_tx_keeps(speakers, episode as nat, w);
    let t = tx(episode as nat, w)->Some_0.1;
    assert(writing_out(m, t) =~= t);
}

/// The lines that are not tag lines, in order.
pub open spec fn untagged(lines: Seq<Seq<char>>) -> Seq<Seq<char>>
    decreases lines.len(),
{
    if lines.len() == 0 {
        Seq::empty()
    } else {
        let rest = untagged(lines.drop_last());
        if classify_spec(lines.last()) matches LineModel::Directive { kind: DirectiveKind::Tag, .. } {
            rest
        } else {
            rest.push(lines.last())
        }
    }
}

/// The transcript keeps every source line but the old tag lines, in the
/// source order: only tag lines are added.
pub proof fn lemma_transcribing_keeps_order(episode: u32, lines: Seq<Seq<char>>)
    requires
        tx(episode as nat, lines) is Some,
    ensures
        tx(episode as nat, lines) matches Some((_, o)) && untagged(o) == untagged(lines),
    decreases lines.len(),
{
    let ep = episode as nat;
    if lines.len() > 0 {
        let l0 = lines.drop_last();
        let x = lines.last();
        lemma_transcribing_keeps_order(episode, l0);
        let (st0, o0) = tx(ep, l0)->Some_0;
        let (st, e) = tx_step(ep, st0, x)->Some_0;
        let o = o0 + e;
        if e.len() == 1 {
            assert(o.drop_last() =~= o0);
            assert(o.last() == x);
        } else if e.len() == 2 {
            let t = e[0];
            lemma_classify_tag(tag_args(ep, st0.scene, st0.ordinal + 1));
            assert(o.drop_last() =~= o0.push(t));
            assert(o0.push(t).drop_last() =~= o0);
            assert(o.last() == x);
            assert(untagged(o0.push(t)) == untagged(o0));
        } else {
            assert(o =~= o0);
        }
    }
}

} // verus!
