//! The selection state: the chosen file or folder and the episode number.

use crate::text::{all_digits, dec_value, is_digit};
use vstd::prelude::*;

verus! {

/// The largest episode number.
pub const EPISODE_MAX: u64 = 2147483647;

/// The current selection and episode. At most one of `selected_file` and
/// `selected_folder` is set by a selection.
#[derive(PartialEq, Eq, Clone, Debug)]
pub struct Settings {
    pub episode: i32,
    pub selected_file: Option<String>,
    pub selected_folder: Option<String>,
    pub scene_number: Option<String>,
}

pub open spec fn is_sep(c: char) -> bool {
    c == '/' || c == '\\'
}

/// The episode a path component names: `ep` followed by decimal digits whose
/// value fits an `i32`.
pub open spec fn component_episode(c: Seq<char>) -> Option<nat> {
    if c.len() >= 3 && c[0] == 'e' && c[1] == 'p' && all_digits(c.skip(2)) && dec_value(c.skip(2))
        <= EPISODE_MAX {
        Some(dec_value(c.skip(2)))
    } else {
        None
    }
}

/// Scans `p` from the back, `tail` being the part of the current component
/// already passed; the last component that names an episode wins.
pub open spec fn episode_scan(p: Seq<char>, tail: Seq<char>) -> Option<nat>
    decreases p.len(),
{
    if p.len() == 0 {
        component_episode(tail)
    } else if is_sep(p.last()) {
        match component_episode(tail) {
            Some(v) => Some(v),
            None => episode_scan(p.drop_last(), Seq::empty()),
        }
    } else {
        episode_scan(p.drop_last(), seq![p.last()] + tail)
    }
}

/// The episode that a path names: that of its last component of the form
/// `ep<digits>`, if any.
pub open spec fn path_episode(p: Seq<char>) -> Option<nat> {
    episode_scan(p, Seq::empty())
}

proof fn lemma_dec_value_grows(s: Seq<char>, j: int)
    requires
        0 <= j <= s.len(),
        all_digits(s),
    ensures
        dec_value(s.take(j)) <= dec_value(s),
    decreases s.len(),
{
    if j < s.len() {
        let t = s.drop_last();
        assert(all_digits(t)) by {
            assert forall|k: int| 0 <= k < t.len() implies is_digit(#[trigger] t[k]) by {
                assert(t[k] == s[k]);
            }
        }
        assert(t.take(j) =~= s.take(j));
        lemma_dec_value_grows(t, j);
    } else {
        assert(s.take(j) =~= s);
    }
}

/// The episode that the component `p[from..to]` names.
fn component_episode_of(p: &str, from: usize, to: usize) -> (r: Option<i32>)
    requires
        from <= to <= p@.len(),
    ensures
        r matches Some(v) ==> v >= 0 && component_episode(p@.subrange(from as int, to as int))
            == Some(v as nat),
        r is None ==> component_episode(p@.subrange(from as int, to as int)) is None,
{
    let ghost c = p@.subrange(from as int, to as int);
    if to - from < 3 || p.get_char(from) != 'e' || p.get_char(from + 1) != 'p' {
        return None;
    }
    let ghost d = c.skip(2);
    let mut acc: u64 = 0;
    let mut j: usize = from + 2;
    while j < to
        invariant
            from + 2 <= j <= to <= p@.len(),
            c == p@.subrange(from as int, to as int),
            d == c.skip(2),
            all_digits(d.take(j - from - 2)),
            acc as nat == dec_value(d.take(j - from - 2)),
            acc <= EPISODE_MAX,
        decreases to - j,
    {
        let ch = p.get_char(j);
        let ghost k: int = j - from - 2;
        assert(d[k] == ch);
        assert(d.take(k + 1).drop_last() =~= d.take(k));
        if ch < '0' || ch > '9' {
            assert(!all_digits(d));
            return None;
        }
        acc = acc * 10 + (ch as u64 - '0' as u64);
        j = j + 1;
        assert(all_digits(d.take(k + 1))) by {
            assert forall|q: int| 0 <= q < k + 1 implies is_digit(#[trigger] d.take(k + 1)[q]) by {
                if q < k {
                    assert(d.take(k + 1)[q] == d.take(k)[q]);
                }
            }
        }
        if acc > EPISODE_MAX {
            proof {
                if all_digits(d) {
                    lemma_dec_value_grows(d, k + 1);
                }
            }
            return None;
        }
    }
    assert(d.take(to - from - 2) =~= d);
    Some(acc as i32)
}

/// The episode that a path names (see `path_episode`).
pub fn episode_from_path(path: &str) -> (r: Option<i32>)
    ensures
        r matches Some(v) ==> v >= 0 && path_episode(path@) == Some(v as nat),
        r is None ==> path_episode(path@) is None,
{
    let mut end = path.unicode_len();
    let mut i = end;
    assert(path@.take(i as int) =~= path@);
    assert(path@.subrange(i as int, end as int) =~= Seq::<char>::empty());
    while i > 0
        invariant
            i <= end <= path@.len(),
            path_episode(path@) == episode_scan(path@.take(i as int), path@.subrange(
                i as int,
                end as int,
            )),
        decreases i,
    {
        let c = path.get_char(i - 1);
        let ghost pre = path@.take(i as int);
        assert(pre.drop_last() =~= path@.take(i - 1));
        assert(pre.last() == c);
        if c == '/' || c == '\\' {
            let e = component_episode_of(path, i, end);
            if e.is_some() {
                return e;
            }
            end = i - 1;
            assert(path@.subrange(i - 1, end as int) =~= Seq::<char>::empty());
        } else {
            assert(seq![c] + path@.subrange(i as int, end as int) =~= path@.subrange(
                i - 1,
                end as int,
            ));
        }
        i = i - 1;
    }
    assert(path@.subrange(0, end as int) =~= path@.subrange(i as int, end as int));
    component_episode_of(path, 0, end)
}

impl Settings {
    /// Settings with the given episode and nothing selected.
    pub fn new(episode: i32) -> (r: Settings)
        ensures
            r.episode == episode,
            r.selected_file is None,
            r.selected_folder is None,
            r.scene_number is None,
    {
        Settings { episode, selected_file: None, selected_folder: None, scene_number: None }
    }
}

/// What a selection covers.
#[derive(PartialEq, Eq, Clone, Debug)]
pub enum Selection {
    Nothing,
    File(String),
    Folder(String),
}

impl Settings {
    /// The selection to act on: a file or a folder when exactly one of them
    /// is set, else nothing.
    pub fn selection(&self) -> (r: Selection)
        ensures
            r matches Selection::File(f) ==> self.selected_folder is None
                && self.selected_file == Some(f),
            r matches Selection::Folder(f) ==> self.selected_file is None
                && self.selected_folder == Some(f),
            r is Nothing <==> (self.selected_file is Some) == (self.selected_folder is Some),
    {
        match (&self.selected_file, &self.selected_folder) {
            (Some(f), None) => Selection::File(f.clone()),
            (None, Some(f)) => Selection::Folder(f.clone()),
            _ => Selection::Nothing,
        }
    }
}

/// The current episode number.
pub fn get_episode_number(settings: &Settings) -> (r: i32)
    ensures
        r == settings.episode,
{
    settings.episode
}

/// Sets the episode number explicitly.
pub fn set_episode_number(settings: &mut Settings, value: i32)
    ensures
        *final(settings) == (Settings { episode: value, ..*old(settings) }),
{
    settings.episode = value;
}

/// The message that reports a selection.
pub open spec fn selection_message(select_folder: bool, picked: Option<Seq<char>>) -> Seq<char> {
    match (select_folder, picked) {
        (true, Some(p)) => "Selected folder: "@ + p,
        (true, None) => "No folder selected"@,
        (false, Some(p)) => "Selected file: "@ + p,
        (false, None) => "No file selected"@,
    }
}

pub open spec fn opt_view(o: Option<String>) -> Option<Seq<char>> {
    match o {
        Some(s) => Some(s@),
        None => None,
    }
}

/// Records what the picker returned for a folder (`select_folder`) or a
/// file selection: the other kind of selection is cleared, and a folder
/// whose path has a component `ep<digits>` sets the episode; picking a file
/// leaves the episode as it was. Returns the message to show.
pub fn file_dialogue(settings: &mut Settings, select_folder: bool, picked: Option<String>) -> (r:
    String)
    ensures
        select_folder ==> final(settings).selected_file is None && final(settings).selected_folder
            == picked,
        !select_folder ==> final(settings).selected_folder is None
            && final(settings).selected_file == picked,
        final(settings).scene_number == old(settings).scene_number,
        final(settings).episode as int == (match picked {
            Some(p) => if select_folder && path_episode(p@) is Some {
                path_episode(p@)->Some_0 as int
            } else {
                old(settings).episode as int
            },
            None => old(settings).episode as int,
        }),
        r@ == selection_message(select_folder, opt_view(picked)),
{
    if select_folder {
        if let Some(p) = &picked {
            if let Some(v) = episode_from_path(p.as_str()) {
                settings.episode = v;
            }
        }
    }
    let msg = match (&picked, select_folder) {
        (Some(p), true) => crate::text::concat2("Selected folder: ", p.as_str()),
        (None, true) => "No folder selected".to_owned(),
        (Some(p), false) => crate::text::concat2("Selected file: ", p.as_str()),
        (None, false) => "No file selected".to_owned(),
    };
    if select_folder {
        settings.selected_file = None;
        settings.selected_folder = picked;
    } else {
        settings.selected_folder = None;
        settings.selected_file = picked;
    }
    msg
}

} // verus!
