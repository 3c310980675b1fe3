//! Classification of single script lines into dialogue, directives and
//! everything else, and the printing of a classified line back to text.

use crate::text::{concat2, find_char_from, first_index, has_prefix, lemma_first_index_at,
    lemma_first_index_props, slice_owned};
use vstd::prelude::*;

verus! {

/// The directives that the tool acts upon.
#[derive(PartialEq, Eq, Structural, Clone, Copy, Debug)]
pub enum DirectiveKind {
    /// `# scene: <name>` opens a scene.
    Scene,
    /// `show <identifier> ...` puts a visual asset on screen.
    Show,
    /// `## <tag>` is the transcript's label above a dialogue line.
    Tag,
}

/// Who a dialogue line is attributed to.
#[derive(PartialEq, Eq, Clone, Debug)]
pub enum Speaker {
    /// A short speaker code, written `J: ...`.
    Code(String),
    /// A resolved display name, written `@Jordan: ...`.
    Name(String),
}

/// One classified script line.
#[derive(PartialEq, Eq, Clone, Debug)]
pub enum ScriptLine {
    Dialogue { speaker: Speaker, text: String },
    Directive { kind: DirectiveKind, args: String },
    Other { raw: String },
}

/// Mathematical model of a `Speaker`.
pub enum SpeakerModel {
    Code(Seq<char>),
    Name(Seq<char>),
}

/// Mathematical model of a `ScriptLine`.
pub enum LineModel {
    Dialogue { speaker: SpeakerModel, text: Seq<char> },
    Directive { kind: DirectiveKind, args: Seq<char> },
    Other { raw: Seq<char> },
}

impl Speaker {
    pub open spec fn model(&self) -> SpeakerModel {
        match self {
            Speaker::Code(c) => SpeakerModel::Code(c@),
            Speaker::Name(n) => SpeakerModel::Name(n@),
        }
    }
}

impl ScriptLine {
    pub open spec fn model(&self) -> LineModel {
        match self {
            ScriptLine::Dialogue { speaker, text } => LineModel::Dialogue {
                speaker: speaker.model(),
                text: text@,
            },
            ScriptLine::Directive { kind, args } => LineModel::Directive { kind: *kind, args: args@ },
            ScriptLine::Other { raw } => LineModel::Other { raw: raw@ },
        }
    }
}

pub open spec fn scene_marker() -> Seq<char> {
    "# scene: "@
}

pub open spec fn show_marker() -> Seq<char> {
    "show "@
}

pub open spec fn tag_marker() -> Seq<char> {
    "## "@
}

pub open spec fn starts_with(s: Seq<char>, p: Seq<char>) -> bool {
    p.len() <= s.len() && s.subrange(0, p.len() as int) == p
}

/// A speaker token names a display name when it is `@` followed by at least
/// one character; otherwise it is a code.
pub open spec fn speaker_of(t: Seq<char>) -> SpeakerModel {
    if t.len() >= 2 && t[0] == '@' {
        SpeakerModel::Name(t.skip(1))
    } else {
        SpeakerModel::Code(t)
    }
}

/// A line is dialogue when its first `:` has at least one character before
/// it and is followed by a space; the speaker token is what precedes the
/// colon and the text is what follows `": "`.
pub open spec fn is_dialogue_shape(s: Seq<char>) -> bool {
    let p = first_index(s, ':');
    p >= 1 && p + 1 < s.len() && s[p + 1] == ' '
}

/// Classification of a line. Directives take precedence over dialogue.
pub open spec fn classify_spec(s: Seq<char>) -> LineModel {
    if starts_with(s, scene_marker()) {
        LineModel::Directive { kind: DirectiveKind::Scene, args: s.skip(scene_marker().len() as int) }
    } else if starts_with(s, show_marker()) {
        LineModel::Directive { kind: DirectiveKind::Show, args: s.skip(show_marker().len() as int) }
    } else if starts_with(s, tag_marker()) {
        LineModel::Directive { kind: DirectiveKind::Tag, args: s.skip(tag_marker().len() as int) }
    } else if is_dialogue_shape(s) {
        let p = first_index(s, ':');
        LineModel::Dialogue { speaker: speaker_of(s.take(p)), text: s.skip(p + 2) }
    } else {
        LineModel::Other { raw: s }
    }
}

pub open spec fn render_speaker(sp: SpeakerModel) -> Seq<char> {
    match sp {
        SpeakerModel::Code(c) => c,
        SpeakerModel::Name(n) => seq!['@'] + n,
    }
}

/// The text of a classified line.
pub open spec fn render_spec(m: LineModel) -> Seq<char> {
    match m {
        LineModel::Dialogue { speaker, text } => render_speaker(speaker) + seq![':', ' '] + text,
        LineModel::Directive { kind, args } => match kind {
            DirectiveKind::Scene => scene_marker() + args,
            DirectiveKind::Show => show_marker() + args,
            DirectiveKind::Tag => tag_marker() + args,
        },
        LineModel::Other { raw } => raw,
    }
}

/// Classification is lossless: printing a classified line gives back the
/// line exactly.
pub proof fn lemma_classify_lossless(s: Seq<char>)
    ensures
        render_spec(classify_spec(s)) == s,
{
    reveal_strlit("# scene: ");
    reveal_strlit("show ");
    reveal_strlit("## ");
    let m = classify_spec(s);
    if starts_with(s, scene_marker()) {
        assert(s =~= scene_marker() + s.skip(scene_marker().len() as int));
    } else if starts_with(s, show_marker()) {
        assert(s =~= show_marker() + s.skip(show_marker().len() as int));
    } else if starts_with(s, tag_marker()) {
        assert(s =~= tag_marker() + s.skip(tag_marker().len() as int));
    } else if is_dialogue_shape(s) {
        let p = first_index(s, ':');
        lemma_first_index_props(s, ':');
        let t = s.take(p);
        if t.len() >= 2 && t[0] == '@' {
            assert(t =~= seq!['@'] + t.skip(1));
        }
        assert(s =~= t + seq![':', ' '] + s.skip(p + 2));
    }
}

/// A line with a display name reads back as that display name, provided the
/// name is not empty and holds no `:`.
pub proof fn lemma_classify_named(n: Seq<char>, t: Seq<char>)
    requires
        n.len() >= 1,
        forall|j: int| 0 <= j < n.len() ==> n[j] != ':',
    ensures
        classify_spec(render_spec(
            LineModel::Dialogue { speaker: SpeakerModel::Name(n), text: t },
        )) == (LineModel::Dialogue { speaker: SpeakerModel::Name(n), text: t }),
{
    reveal_strlit("# scene: ");
    reveal_strlit("show ");
    reveal_strlit("## ");
    let s = seq!['@'] + n + seq![':', ' '] + t;
    assert(render_spec(LineModel::Dialogue { speaker: SpeakerModel::Name(n), text: t }) == s);
    assert(s[0] == '@');
    if s.len() >= 9 {
        assert(s.subrange(0, 9)[0] == '@');
    }
    if s.len() >= 5 {
        assert(s.subrange(0, 5)[0] == '@');
    }
    if s.len() >= 3 {
        assert(s.subrange(0, 3)[0] == '@');
    }
    let p: int = n.len() as int + 1;
    assert forall|j: int| 0 <= j < p implies s[j] != ':' by {
        if j > 0 {
            assert(s[j] == n[j - 1]);
        }
    }
    assert(s[p] == ':');
    lemma_first_index_at(s, ':', p);
    assert(s.take(p) =~= seq!['@'] + n);
    assert((seq!['@'] + n).skip(1) =~= n);
    assert(s.skip(p + 2) =~= t);
}

/// A transcript tag line reads back as a tag directive.
pub proof fn lemma_classify_tag(a: Seq<char>)
    ensures
        classify_spec(tag_marker() + a) == (LineModel::Directive { kind: DirectiveKind::Tag, args: a }),
{
    reveal_strlit("# scene: ");
    reveal_strlit("show ");
    reveal_strlit("## ");
    let s = tag_marker() + a;
    assert(s.subrange(0, 3) =~= tag_marker());
    assert(s.skip(3) =~= a);
    if s.len() >= 9 {
        assert(s.subrange(0, 9)[1] == '#');
    }
    if s.len() >= 5 {
        assert(s.subrange(0, 5)[0] == '#');
    }
}

/// Classifies one line. Never fails: a line of no known shape is `Other`.
pub fn classify(line: &str) -> (r: ScriptLine)
    ensures
        r.model() == classify_spec(line@),
{
    let n = line.unicode_len();
    if has_prefix(line, "# scene: ") {
        proof { reveal_strlit("# scene: "); }
        return ScriptLine::Directive { kind: DirectiveKind::Scene, args: slice_owned(line, 9, n) };
    }
    if has_prefix(line, "show ") {
        proof { reveal_strlit("show "); }
        return ScriptLine::Directive { kind: DirectiveKind::Show, args: slice_owned(line, 5, n) };
    }
    if has_prefix(line, "## ") {
        proof { reveal_strlit("## "); }
        return ScriptLine::Directive { kind: DirectiveKind::Tag, args: slice_owned(line, 3, n) };
    }
    let p = find_char_from(line, ':', 0);
    proof {
        if p < n {
            lemma_first_index_at(line@, ':', p as int);
        } else {
            crate::text::lemma_first_index_none(line@, ':');
        }
    }
    if p >= 1 && p < n && p + 1 < n && line.get_char(p + 1) == ' ' {
        let text = slice_owned(line, p + 2, n);
        let speaker = if p >= 2 && line.get_char(0) == '@' {
            let name = slice_owned(line, 1, p);
            proof {
                assert(name@ =~= line@.take(p as int).skip(1));
            }
            Speaker::Name(name)
        } else {
            Speaker::Code(slice_owned(line, 0, p))
        };
        ScriptLine::Dialogue { speaker, text }
    } else {
        ScriptLine::Other { raw: line.to_owned() }
    }
}

impl Speaker {
    /// The speaker token as it stands before the `": "` of a dialogue line.
    pub fn render(&self) -> (r: String)
        ensures
            r@ == render_speaker(self.model()),
    {
        match self {
            Speaker::Code(c) => c.clone(),
            Speaker::Name(n) => {
                let r = concat2("@", n.as_str());
                proof { reveal_strlit("@"); assert("@"@ =~= seq!['@']); }
                r
            },
        }
    }
}

impl ScriptLine {
    /// The text of this line.
    pub fn render(&self) -> (r: String)
        ensures
            r@ == render_spec(self.model()),
    {
        match self {
            ScriptLine::Dialogue { speaker, text } => {
                let mut r = speaker.render();
                r.append(": ");
                r.append(text.as_str());
                proof { reveal_strlit(": "); assert(": "@ =~= seq![':', ' ']); }
                r
            },
            ScriptLine::Directive { kind, args } => match kind {
                DirectiveKind::Scene => concat2("# scene: ", args.as_str()),
                DirectiveKind::Show => concat2("show ", args.as_str()),
                DirectiveKind::Tag => concat2("## ", args.as_str()),
            },
            ScriptLine::Other { raw } => raw.clone(),
        }
    }
}

} // verus!
