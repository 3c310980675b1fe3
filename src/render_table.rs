//! The render-usage table: which visual assets a script shows, how often,
//! and where first.

use crate::line::{classify, classify_spec, DirectiveKind, LineModel, ScriptLine};
use crate::text::{dec, push_char, push_dec, find_char_from, first_index, lemma_first_index_at, lemma_first_index_none,
    lemma_first_index_props, slice_owned};
use vstd::prelude::*;

verus! {

/// One asset of the table.
#[derive(PartialEq, Eq, Clone, Debug)]
pub struct RenderEntry {
    pub identifier: String,
    pub occurrence_count: usize,
    /// The line (from zero) of the first reference.
    pub first_line: usize,
}

/// The table of one script, with the `show` lines that named no asset.
#[derive(PartialEq, Eq, Clone, Debug)]
pub struct RenderTable {
    pub entries: Vec<RenderEntry>,
    pub skipped: Vec<usize>,
}

/// The asset a `show` directive names: its first word.
pub open spec fn show_ident(args: Seq<char>) -> Option<Seq<char>> {
    let k = first_index(args, ' ');
    let id = if k < 0 {
        args
    } else {
        args.take(k)
    };
    if id.len() == 0 {
        None
    } else {
        Some(id)
    }
}

pub open spec fn is_show(s: Seq<char>) -> bool {
    classify_spec(s) matches LineModel::Directive { kind: DirectiveKind::Show, .. }
}

/// The asset a line refers to, if any.
pub open spec fn ident_of_line(s: Seq<char>) -> Option<Seq<char>> {
    match classify_spec(s) {
        LineModel::Directive { kind: DirectiveKind::Show, args } => show_ident(args),
        _ => None,
    }
}

pub type EntryModel = (Seq<char>, nat, nat);

pub open spec fn ids_of(t: Seq<EntryModel>) -> Seq<Seq<char>> {
    t.map_values(|e: EntryModel| e.0)
}

/// Records one reference: a new asset is appended with count one, a known
/// one has its count raised.
pub open spec fn add_ref(t: Seq<EntryModel>, id: Option<Seq<char>>, ln: nat) -> Seq<EntryModel> {
    match id {
        None => t,
        Some(id) => {
            let k = first_index(ids_of(t), id);
            if k < 0 {
                t.push((id, 1, ln))
            } else {
                t.update(k, (id, t[k].1 + 1, t[k].2))
            }
        },
    }
}

/// The table of a script's lines.
pub open spec fn table_spec(lines: Seq<Seq<char>>) -> Seq<EntryModel>
    decreases lines.len(),
{
    if lines.len() == 0 {
        Seq::empty()
    } else {
        add_ref(table_spec(lines.drop_last()), ident_of_line(lines.last()), (lines.len() - 1) as nat)
    }
}

/// The `show` lines that name no asset.
pub open spec fn skipped_spec(lines: Seq<Seq<char>>) -> Seq<usize>
    decreases lines.len(),
{
    if lines.len() == 0 {
        Seq::empty()
    } else {
        let rest = skipped_spec(lines.drop_last());
        if is_show(lines.last()) && ident_of_line(lines.last()) is None {
            rest.push((lines.len() - 1) as usize)
        } else {
            rest
        }
    }
}

pub open spec fn unique_ids(t: Seq<EntryModel>) -> bool {
    forall|i: int, j: int| 0 <= i < j < t.len() ==> t[i].0 != t[j].0
}

/// No asset appears twice in a table.
pub proof fn lemma_table_unique(lines: Seq<Seq<char>>)
    ensures
        unique_ids(table_spec(lines)),
    decreases lines.len(),
{
    if lines.len() > 0 {
        lemma_table_unique(lines.drop_last());
        let t = table_spec(lines.drop_last());
        if let Some(id) = ident_of_line(lines.last()) {
            lemma_first_index_props(ids_of(t), id);
            let t2 = table_spec(lines);
            assert forall|i: int, j: int| 0 <= i < j < t2.len() implies t2[i].0 != t2[j].0 by {
                if j < t.len() {
                    assert(t[i].0 != t[j].0);
                } else {
                    assert(ids_of(t)[i] == t[i].0);
                }
            }
        }
    }
}

impl RenderEntry {
    pub open spec fn model(&self) -> EntryModel {
        (self.identifier@, self.occurrence_count as nat, self.first_line as nat)
    }
}

impl RenderTable {
    pub open spec fn model(&self) -> Seq<EntryModel> {
        self.entries@.map_values(|e: RenderEntry| e.model())
    }
}

/// The first word of a `show` directive's arguments, if it has one.
fn first_word(args: &str) -> (r: Option<String>)
    ensures
        r matches Some(w) ==> show_ident(args@) == Some(w@),
        r is None ==> show_ident(args@) is None,
{
    let n = args.unicode_len();
    let k = find_char_from(args, ' ', 0);
    proof {
        if k < n {
            lemma_first_index_at(args@, ' ', k as int);
        } else {
            lemma_first_index_none(args@, ' ');
            assert(args@.take(k as int) =~= args@);
        }
    }
    if k == 0 {
        None
    } else {
        Some(slice_owned(args, 0, k))
    }
}

/// Builds the render table of a script's lines. A `show` directive that names
/// no asset is skipped and its line recorded, the rest goes on.
pub fn build(lines: &Vec<String>) -> (r: RenderTable)
    ensures
        r.model() == table_spec(lines.deep_view()),
        r.skipped@ == skipped_spec(lines.deep_view()),
        unique_ids(r.model()),
{
    let ghost ls = lines.deep_view();
    let mut t = RenderTable { entries: Vec::new(), skipped: Vec::new() };
    let mut i: usize = 0;
    assert(t.model() =~= table_spec(ls.take(0)));
    while i < lines.len()
        invariant
            ls == lines.deep_view(),
            i <= lines.len(),
            t.model() == table_spec(ls.take(i as int)),
            t.skipped@ == skipped_spec(ls.take(i as int)),
            forall|k: int| 0 <= k < t.entries.len() ==> (#[trigger] t.entries@[k]).occurrence_count
                <= i,
        decreases lines.len() - i,
    {
        assert(ls.take(i as int + 1).drop_last() =~= ls.take(i as int));
        assert(ls.take(i as int + 1).last() == lines@[i as int]@);
        let cl = classify(lines[i].as_str());
        if let ScriptLine::Directive { kind: DirectiveKind::Show, args } = cl {
            match first_word(args.as_str()) {
                None => {
                    t.skipped.push(i);
                },
                Some(w) => {
                    let ghost tm = t.model();
                    let ghost ids = ids_of(tm);
                    let mut k: usize = 0;
                    let mut found = false;
                    while k < t.entries.len()
                        invariant_except_break
                            !found,
                        invariant
                            tm == t.model(),
                            ids == ids_of(tm),
                            k <= t.entries.len(),
                            forall|j: int| 0 <= j < k ==> ids[j] != w@,
                        ensures
                            found ==> k < t.entries.len() && ids[k as int] == w@,
                            !found ==> k == t.entries.len(),
                        decreases t.entries.len() - k,
                    {
                        assert(ids[k as int] == t.entries@[k as int].identifier@);
                        if t.entries[k].identifier == w {
                            found = true;
                            break;
                        }
                        k = k + 1;
                    }
                    if found {
                        proof { lemma_first_index_at(ids, w@, k as int); }
                        let c = t.entries[k].occurrence_count;
                        let f = t.entries[k].first_line;
                        t.entries.set(k, RenderEntry { identifier: w, occurrence_count: c + 1, first_line: f });
                        assert(t.model() =~= tm.update(k as int, (w@, tm[k as int].1 + 1, tm[k as int].2)));
                    } else {
                        proof { lemma_first_index_none(ids, w@); }
                        t.entries.push(RenderEntry { identifier: w, occurrence_count: 1, first_line: i });
                        assert(t.model() =~= tm.push((w@, 1, i as nat)));
                    }
                },
            }
        }
        i = i + 1;
    }
    assert(ls.take(i as int) =~= ls);
    proof { lemma_table_unique(ls); }
    t
}

/// A table row: identifier, count and `file:line` of the first reference,
/// separated by commas.
pub open spec fn entry_line(e: EntryModel, file: Seq<char>) -> Seq<char> {
    e.0 + seq![','] + dec(e.1) + seq![','] + file + seq![':'] + dec(e.2)
}

impl RenderTable {
    /// The rows of the table, one per asset, for the script `file`.
    pub fn to_lines(&self, file: &str) -> (r: Vec<String>)
        ensures
            r.deep_view() == self.model().map_values(|e: EntryModel| entry_line(e, file@)),
    {
        let mut out: Vec<String> = Vec::new();
        let mut i: usize = 0;
        while i < self.entries.len()
            invariant
                i <= self.entries.len(),
                out.len() == i,
                forall|j: int| 0 <= j < i ==> (#[trigger] out@[j])@ == entry_line(
                    self.model()[j],
                    file@,
                ),
            decreases self.entries.len() - i,
        {
            let e = &self.entries[i];
            let mut l = e.identifier.clone();
            push_char(&mut l, ',');
            push_dec(&mut l, e.occurrence_count);
            push_char(&mut l, ',');
            l.append(file);
            push_char(&mut l, ':');
            push_dec(&mut l, e.first_line);
            assert(l@ =~= entry_line(self.model()[i as int], file@));
            out.push(l);
            i = i + 1;
        }
        assert(out.deep_view() =~= self.model().map_values(|e: EntryModel| entry_line(e, file@)));
        out
    }
}

} // verus!
