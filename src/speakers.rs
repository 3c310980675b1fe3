//! The speaker registry: short speaker codes and the display names they
//! stand for.

use crate::error::ConversionError;
use crate::text::{find_char_from, first_index, lemma_first_index_at, lemma_first_index_none,
    slice_owned};
use vstd::prelude::*;

verus! {

/// One registry entry.
#[derive(PartialEq, Eq, Clone, Debug)]
pub struct SpeakerEntry {
    pub code: String,
    pub name: String,
}

/// Speaker codes with their display names, in listing order; codes are
/// unique.
#[derive(PartialEq, Eq, Clone, Debug)]
pub struct SpeakerRegistry {
    pub entries: Vec<SpeakerEntry>,
}

/// A code is not empty, holds no `:` and does not begin with `@`.
pub open spec fn valid_code(c: Seq<char>) -> bool {
    c.len() >= 1 && c[0] != '@' && forall|j: int| 0 <= j < c.len() ==> c[j] != ':'
}

/// A display name is not empty and holds no `:`.
pub open spec fn valid_name(n: Seq<char>) -> bool {
    n.len() >= 1 && forall|j: int| 0 <= j < n.len() ==> n[j] != ':'
}

pub open spec fn codes_of(m: Seq<(Seq<char>, Seq<char>)>) -> Seq<Seq<char>> {
    m.map_values(|e: (Seq<char>, Seq<char>)| e.0)
}

/// The display name of `c` in the registry model `m`.
pub open spec fn lookup(m: Seq<(Seq<char>, Seq<char>)>, c: Seq<char>) -> Option<Seq<char>> {
    let i = first_index(codes_of(m), c);
    if i < 0 {
        None
    } else {
        Some(m[i].1)
    }
}

pub open spec fn wf_model(m: Seq<(Seq<char>, Seq<char>)>) -> bool {
    &&& forall|i: int| 0 <= i < m.len() ==> valid_code(#[trigger] m[i].0) && valid_name(m[i].1)
    &&& forall|i: int, j: int| 0 <= i < j < m.len() ==> m[i].0 != m[j].0
}

/// The entry that a listing line holds: the code before the first `=`, the
/// display name after it.
pub open spec fn entry_of(line: Seq<char>) -> Option<(Seq<char>, Seq<char>)> {
    let e = first_index(line, '=');
    if e < 0 {
        None
    } else {
        let c = line.take(e);
        let n = line.skip(e + 1);
        if valid_code(c) && valid_name(n) {
            Some((c, n))
        } else {
            None
        }
    }
}

/// The registry that a listing gives: blank lines are skipped, every other
/// line must hold a well-formed entry whose code is new.
pub open spec fn load_spec(lines: Seq<Seq<char>>) -> Option<Seq<(Seq<char>, Seq<char>)>>
    decreases lines.len(),
{
    if lines.len() == 0 {
        Some(Seq::empty())
    } else {
        match load_spec(lines.drop_last()) {
            None => None,
            Some(m) => {
                let l = lines.last();
                if l.len() == 0 {
                    Some(m)
                } else {
                    match entry_of(l) {
                        None => None,
                        Some(e) => if lookup(m, e.0) is Some {
                            None
                        } else {
                            Some(m.push(e))
                        },
                    }
                }
            },
        }
    }
}

/// Once a prefix of a listing fails to load, the whole listing fails.
proof fn lemma_load_none_extends(lines: Seq<Seq<char>>, k: int)
    requires
        0 <= k <= lines.len(),
        load_spec(lines.take(k)) is None,
    ensures
        load_spec(lines) is None,
    decreases lines.len(),
{
    if k == lines.len() {
        assert(lines.take(k) =~= lines);
    } else {
        assert(lines.drop_last().take(k) =~= lines.take(k));
        lemma_load_none_extends(lines.drop_last(), k);
    }
}

proof fn lemma_load_wf(lines: Seq<Seq<char>>)
    ensures
        load_spec(lines) matches Some(m) ==> wf_model(m),
    decreases lines.len(),
{
    if lines.len() > 0 {
        lemma_load_wf(lines.drop_last());
        if let Some(m) = load_spec(lines.drop_last()) {
            let l = lines.last();
            if l.len() != 0 {
                if let Some(e) = entry_of(l) {
                    if lookup(m, e.0) is None {
                        let m2 = m.push(e);
                        assert forall|i: int, j: int| 0 <= i < j < m2.len() implies m2[i].0
                            != m2[j].0 by {
                            if j == m.len() {
                                crate::text::lemma_first_index_props(codes_of(m), e.0);
                                assert(codes_of(m)[i] == m[i].0);
                            }
                        }
                    }
                }
            }
        }
    }
}

impl SpeakerRegistry {
    pub open spec fn model(&self) -> Seq<(Seq<char>, Seq<char>)> {
        self.entries@.map_values(|e: SpeakerEntry| (e.code@, e.name@))
    }

    pub open spec fn wf(&self) -> bool {
        wf_model(self.model())
    }

    /// An empty registry.
    pub fn new() -> (r: SpeakerRegistry)
        ensures
            r.model() == Seq::<(Seq<char>, Seq<char>)>::empty(),
            r.wf(),
    {
        let r = SpeakerRegistry { entries: Vec::new() };
        assert(r.model() =~= Seq::<(Seq<char>, Seq<char>)>::empty());
        r
    }

    /// Index of the entry for `code`, if any.
    fn find(&self, code: &String) -> (r: Option<usize>)
        ensures
            r matches Some(i) ==> i as int == first_index(codes_of(self.model()), code@) && i
                < self.entries.len(),
            r is None ==> first_index(codes_of(self.model()), code@) == -1,
    {
        let ghost cs = codes_of(self.model());
        let mut i: usize = 0;
        while i < self.entries.len()
            invariant
                cs == codes_of(self.model()),
                i <= self.entries.len(),
                forall|j: int| 0 <= j < i ==> cs[j] != code@,
            decreases self.entries.len() - i,
        {
            assert(cs[i as int] == self.entries@[i as int].code@);
            if self.entries[i].code == *code {
                proof { lemma_first_index_at(cs, code@, i as int); }
                return Some(i);
            }
            i = i + 1;
        }
        proof { lemma_first_index_none(cs, code@); }
        None
    }

    /// The display name for `code`; `SpeakerResolution` when the code is
    /// absent (its line is reported as `line`).
    pub fn resolve(&self, code: &str, line: usize) -> (r: Result<String, ConversionError>)
        ensures
            r matches Ok(n) ==> lookup(self.model(), code@) == Some(n@),
            r matches Err(e) ==> lookup(self.model(), code@) is None && e
                == (ConversionError::SpeakerResolution { line, code: e->code }) && e->code@
                == code@,
            r is Ok <==> lookup(self.model(), code@) is Some,
    {
        match self.find(&code.to_owned()) {
            Some(i) => Ok(self.entries[i].name.clone()),
            None => Err(ConversionError::SpeakerResolution { line, code: code.to_owned() }),
        }
    }

    /// Loads a registry from listing lines of the form `code=Display Name`.
    /// Fails with `RegistryLoad` naming the first line that is malformed or
    /// repeats a code.
    pub fn load(lines: &Vec<String>) -> (r: Result<SpeakerRegistry, ConversionError>)
        ensures
            r is Ok <==> load_spec(lines.deep_view()) is Some,
            r matches Ok(reg) ==> Some(reg.model()) == load_spec(lines.deep_view()) && reg.wf(),
            r matches Err(e) ==> e matches ConversionError::RegistryLoad { line } && line
                < lines.len() && load_spec(lines.deep_view().take(line as int)) is Some
                && load_spec(lines.deep_view().take(line as int + 1)) is None,
    {
        let ghost ls = lines.deep_view();
        let mut reg = SpeakerRegistry::new();
        let mut i: usize = 0;
        while i < lines.len()
            invariant
                ls == lines.deep_view(),
                i <= lines.len(),
                load_spec(ls.take(i as int)) == Some(reg.model()),
            decreases lines.len() - i,
        {
            let l = lines[i].as_str();
            let ghost lv = l@;
            assert(ls.take(i as int + 1).drop_last() =~= ls.take(i as int));
            assert(ls.take(i as int + 1).last() == lv);
            let n = l.unicode_len();
            if n > 0 {
                let e = find_char_from(l, '=', 0);
                proof {
                    if e < n {
                        lemma_first_index_at(lv, '=', e as int);
                    } else {
                        lemma_first_index_none(lv, '=');
                    }
                }
                if e == n {
                    proof { lemma_load_none_extends(ls, i as int + 1); }
                    return Err(ConversionError::RegistryLoad { line: i });
                }
                let code = slice_owned(l, 0, e);
                let name = slice_owned(l, e + 1, n);
                if !check_code(code.as_str()) || !check_name(name.as_str()) {
                    proof { lemma_load_none_extends(ls, i as int + 1); }
                    return Err(ConversionError::RegistryLoad { line: i });
                }
                if reg.find(&code).is_some() {
                    proof { lemma_load_none_extends(ls, i as int + 1); }
                    return Err(ConversionError::RegistryLoad { line: i });
                }
                let ghost old_model = reg.model();
                reg.entries.push(SpeakerEntry { code, name });
                assert(reg.model() =~= old_model.push((code@, name@)));
            }
            i = i + 1;
        }
        assert(ls.take(i as int) =~= ls);
        proof { lemma_load_wf(ls); }
        Ok(reg)
    }
}

fn check_code(c: &str) -> (r: bool)
    ensures
        r == valid_code(c@),
{
    let n = c.unicode_len();
    n >= 1 && c.get_char(0) != '@' && find_char_from(c, ':', 0) == n
}

fn check_name(c: &str) -> (r: bool)
    ensures
        r == valid_name(c@),
{
    let n = c.unicode_len();
    n >= 1 && find_char_from(c, ':', 0) == n
}

} // verus!
