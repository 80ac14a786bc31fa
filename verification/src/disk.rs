//! What the file system answered about paths, as plain values.

use crate::text::same;
use vstd::prelude::*;

verus! {

/// A snapshot of resolved paths: for each path that resolves, its canonical
/// form. A path without an entry does not resolve.
pub struct CanonicalPaths {
    pub entries: Vec<(String, String)>,
}

/// The canonical form of `raw` in a list of answers, if there is one.
pub open spec fn answer(entries: Seq<(String, String)>, raw: Seq<char>) -> Option<Seq<char>>
    decreases entries.len(),
{
    if entries.len() == 0 {
        None
    } else if entries[0].0@ == raw {
        Some(entries[0].1@)
    } else {
        answer(entries.skip(1), raw)
    }
}

impl CanonicalPaths {
    /// The canonical form of `raw`, or `raw` itself where it does not resolve.
    pub open spec fn canon(&self, raw: Seq<char>) -> Seq<char> {
        match answer(self.entries@, raw) {
            Some(c) => c,
            None => raw,
        }
    }

    /// Whether `raw` resolves.
    pub open spec fn resolves(&self, raw: Seq<char>) -> bool {
        answer(self.entries@, raw) is Some
    }

    /// A snapshot in which nothing resolves.
    pub fn new() -> (r: Self)
        ensures
            forall|raw: Seq<char>| !#[trigger] r.resolves(raw),
            forall|raw: Seq<char>| #[trigger] r.canon(raw) == raw,
    {
        CanonicalPaths { entries: Vec::new() }
    }

    fn lookup(&self, raw: &str) -> (r: Option<String>)
        ensures
            r is Some == self.resolves(raw@),
            r matches Some(c) ==> Some(c@) == answer(self.entries@, raw@),
    {
        let mut i: usize = 0;
        assert(self.entries@.skip(0) =~= self.entries@);
        while i < self.entries.len()
            invariant
                i <= self.entries.len(),
                answer(self.entries@, raw@) == answer(self.entries@.skip(i as int), raw@),
            decreases self.entries.len() - i,
        {
            assert(self.entries@.skip(i as int).skip(1) =~= self.entries@.skip(i + 1));
            if same(self.entries[i].0.as_str(), raw) {
                return Some(self.entries[i].1.clone());
            }
            i = i + 1;
        }
        None
    }

    /// Records that `raw` resolves to `canonical`, unless it has an answer already.
    pub fn record(&mut self, raw: &str, canonical: &str)
        ensures
            forall|p: Seq<char>| #[trigger]
                final(self).canon(p) == if p == raw@ && !old(self).resolves(p) {
                    canonical@
                } else {
                    old(self).canon(p)
                },
            forall|p: Seq<char>| #[trigger]
                final(self).resolves(p) == (p == raw@ || old(self).resolves(p)),
    {
        let ghost before = self.entries@;
        self.entries.push((String::from_str(raw), String::from_str(canonical)));
        proof {
            assert forall|p: Seq<char>| #[trigger] answer(self.entries@, p) == (if answer(before, p) is Some {
                answer(before, p)
            } else if p == raw@ {
                Some(canonical@)
            } else {
                None
            }) by {
                lemma_answer_push(before, self.entries@.last(), p);
                assert(self.entries@ =~= before.push(self.entries@.last()));
            }
        }
    }

    /// The canonical form of `raw`, falling back to `raw` where it does not resolve.
    pub fn canonicalize(&self, raw: &str) -> (r: String)
        ensures
            r@ == self.canon(raw@),
    {
        match self.lookup(raw) {
            Some(c) => c,
            None => String::from_str(raw),
        }
    }

    /// The canonical form of `raw`, if it resolves.
    pub fn resolve(&self, raw: &str) -> (r: Option<String>)
        ensures
            r is Some == self.resolves(raw@),
            r matches Some(c) ==> c@ == self.canon(raw@),
    {
        self.lookup(raw)
    }
}

proof fn lemma_answer_push(entries: Seq<(String, String)>, e: (String, String), raw: Seq<char>)
    ensures
        answer(entries.push(e), raw) == (if answer(entries, raw) is Some {
            answer(entries, raw)
        } else if e.0@ == raw {
            Some(e.1@)
        } else {
            None
        }),
    decreases entries.len(),
{
    if entries.len() == 0 {
        assert(entries.push(e).skip(1) =~= entries);
    } else {
        lemma_answer_push(entries.skip(1), e, raw);
        assert(entries.push(e).skip(1) =~= entries.skip(1).push(e));
    }
}

/// The first answer about a path counts, whatever was recorded later; a path
/// without an answer stands for itself.
pub proof fn law_the_first_answer_counts(disk: CanonicalPaths, raw: Seq<char>, i: int)
    ensures
        0 <= i < disk.entries@.len() && disk.entries@[i].0@ == raw && (forall|j: int|
            0 <= j < i ==> (#[trigger] disk.entries@[j]).0@ != raw) ==> disk.resolves(raw)
            && disk.canon(raw) == disk.entries@[i].1@,
        (forall|j: int| 0 <= j < disk.entries@.len() ==> (#[trigger] disk.entries@[j]).0@ != raw)
            ==> !disk.resolves(raw) && disk.canon(raw) == raw,
{
    lemma_first_answer(disk.entries@, raw, i);
}

proof fn lemma_first_answer(entries: Seq<(String, String)>, raw: Seq<char>, i: int)
    ensures
        0 <= i < entries.len() && entries[i].0@ == raw && (forall|j: int|
            0 <= j < i ==> (#[trigger] entries[j]).0@ != raw) ==> answer(entries, raw) == Some(
            entries[i].1@,
        ),
        (forall|j: int| 0 <= j < entries.len() ==> (#[trigger] entries[j]).0@ != raw) ==> answer(
            entries,
            raw,
        ) is None,
    decreases entries.len(),
{
    if entries.len() > 0 {
        let rest = entries.skip(1);
        lemma_first_answer(rest, raw, i - 1);
        assert forall|j: int| 0 <= j < rest.len() implies #[trigger] rest[j] == entries[j + 1] by {}
        if i > 0 && i < entries.len() {
            assert(rest[i - 1] == entries[i]);
            if forall|j: int| 0 <= j < i ==> (#[trigger] entries[j]).0@ != raw {
                assert forall|j: int| 0 <= j < i - 1 implies (#[trigger] rest[j]).0@ != raw by {
                    assert(entries[j + 1].0@ != raw);
                }
                assert(entries[0].0@ != raw);
            }
        }
        if forall|j: int| 0 <= j < entries.len() ==> (#[trigger] entries[j]).0@ != raw {
            assert forall|j: int| 0 <= j < rest.len() implies (#[trigger] rest[j]).0@ != raw by {
                assert(entries[j + 1].0@ != raw);
            }
            assert(entries[0].0@ != raw);
        }
    }
}

} // verus!
