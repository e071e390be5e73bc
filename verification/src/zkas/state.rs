//! Symbol state of the zk assembly parser: declared constants and source
//! lines.

use vstd::prelude::*;

verus! {

/// The declared constants: a type table and a name-to-slot map.  The map is
/// kept as an association list; inserting an existing name repoints it at
/// the new slot.
#[derive(Debug)]
pub struct Constants {
    pub table: Vec<usize>,
    pub map: Vec<(String, usize)>,
}

/// Index of the first map entry with this name, or -1.
pub open spec fn find_key(m: Seq<(String, usize)>, key: Seq<char>) -> int
    decreases m.len(),
{
    if m.len() == 0 {
        -1
    } else if m[0].0@ == key {
        0
    } else {
        let r = find_key(m.drop_first(), key);
        if r == -1 {
            -1
        } else {
            r + 1
        }
    }
}

pub proof fn lemma_find_key_in_range(m: Seq<(String, usize)>, key: Seq<char>)
    ensures
        -1 <= find_key(m, key) < m.len(),
        find_key(m, key) >= 0 ==> m[find_key(m, key)].0@ == key,
    decreases m.len(),
{
    if m.len() > 0 && m[0].0@ != key {
        lemma_find_key_in_range(m.drop_first(), key);
        if find_key(m.drop_first(), key) >= 0 {
            assert(m.drop_first()[find_key(m.drop_first(), key)] == m[find_key(m, key)]);
        }
    }
}

pub proof fn lemma_find_key_first(m: Seq<(String, usize)>, key: Seq<char>, i: int)
    requires
        0 <= i < m.len(),
        forall|j: int| 0 <= j < i ==> (#[trigger] m[j]).0@ != key,
        m[i].0@ == key,
    ensures
        find_key(m, key) == i,
    decreases i,
{
    if i > 0 {
        assert(forall|j: int| 0 <= j < m.drop_first().len() ==> m.drop_first()[j] == m[j + 1]);
        lemma_find_key_first(m.drop_first(), key, i - 1);
    }
}

pub proof fn lemma_find_key_none(m: Seq<(String, usize)>, key: Seq<char>)
    requires
        forall|j: int| 0 <= j < m.len() ==> (#[trigger] m[j]).0@ != key,
    ensures
        find_key(m, key) == -1,
    decreases m.len(),
{
    if m.len() > 0 {
        assert(forall|j: int| 0 <= j < m.drop_first().len() ==> m.drop_first()[j] == m[j + 1]);
        lemma_find_key_none(m.drop_first(), key);
    }
}

impl Constants {
    /// Every mapped slot points into the table.
    pub open spec fn wf(&self) -> bool {
        forall|j: int| 0 <= j < self.map@.len() ==> (#[trigger] self.map@[j]).1 < self.table@.len()
    }

    /// An empty table.
    pub fn new() -> (c: Constants)
        ensures
            c.table@ == Seq::<usize>::empty(),
            c.map@ == Seq::<(String, usize)>::empty(),
            c.wf(),
    {
        Constants { table: Vec::new(), map: Vec::new() }
    }

    /// Declares `variable` with `type_id`: the type enters the table and the
    /// name points at its slot (repointed if the name already exists).
    #[verifier::loop_isolation(false)]
    pub fn add(&mut self, variable: String, type_id: usize)
        requires
            old(self).wf(),
        ensures
            final(self).wf(),
            final(self).table@ == old(self).table@.push(type_id),
            ({
                let idx = old(self).table@.len() as usize;
                let f = find_key(old(self).map@, variable@);
                if f >= 0 {
                    final(self).map@.len() == old(self).map@.len() && final(self).map@[f].0@
                        == variable@ && final(self).map@[f].1 == idx && (forall|j: int|
                        0 <= j < old(self).map@.len() && j != f ==> final(self).map@[j]
                            == #[trigger] old(self).map@[j])
                } else {
                    final(self).map@.len() == old(self).map@.len() + 1 && final(self).map@.subrange(
                        0,
                        old(self).map@.len() as int,
                    ) == old(self).map@ && final(self).map@.last().0@ == variable@
                        && final(self).map@.last().1 == idx
                }
            }),
    {
        let idx = self.table.len();
        self.table.push(type_id);
        let mut i: usize = 0;
        while i < self.map.len()
            invariant
                i <= self.map@.len(),
                self.map@ == old(self).map@,
                self.table@ == old(self).table@.push(type_id),
                forall|j: int| 0 <= j < i ==> (#[trigger] self.map@[j]).0@ != variable@,
            decreases self.map@.len() - i,
        {
            if self.map[i].0 == variable {
                proof {
                    lemma_find_key_first(self.map@, variable@, i as int);
                }
                self.map[i] = (variable, idx);
                return ;
            }
            i = i + 1;
        }
        proof {
            lemma_find_key_none(self.map@, variable@);
        }
        self.map.push((variable, idx));
        proof {
            assert(self.map@.subrange(0, old(self).map@.len() as int) =~= old(self).map@);
        }
    }

    /// The type declared under `variable`, if any.
    #[verifier::loop_isolation(false)]
    pub fn lookup(&self, variable: &String) -> (r: Option<usize>)
        requires
            self.wf(),
        ensures
            ({
                let f = find_key(self.map@, variable@);
                if f >= 0 {
                    r == Some(self.table@[self.map@[f].1 as int])
                } else {
                    r is None
                }
            }),
    {
        let mut i: usize = 0;
        while i < self.map.len()
            invariant
                i <= self.map@.len(),
                forall|j: int| 0 <= j < i ==> (#[trigger] self.map@[j]).0@ != variable@,
            decreases self.map@.len() - i,
        {
            if self.map[i].0 == *variable {
                proof {
                    lemma_find_key_first(self.map@, variable@, i as int);
                }
                let idx = self.map[i].1;
                return Some(self.table[idx]);
            }
            i = i + 1;
        }
        proof {
            lemma_find_key_none(self.map@, variable@);
        }
        None
    }

    /// The declared names, in declaration order.
    #[verifier::loop_isolation(false)]
    pub fn variables(&self) -> (r: Vec<String>)
        ensures
            r@.len() == self.map@.len(),
            forall|j: int| 0 <= j < self.map@.len() ==> (#[trigger] r@[j])@ == self.map@[j].0@,
    {
        let mut r: Vec<String> = Vec::new();
        let mut i: usize = 0;
        while i < self.map.len()
            invariant
                i <= self.map@.len(),
                r@.len() == i,
                forall|j: int| 0 <= j < i ==> (#[trigger] r@[j])@ == self.map@[j].0@,
            decreases self.map@.len() - i,
        {
            r.push(self.map[i].0.clone());
            i = i + 1;
        }
        r
    }
}

/// One cleaned source line: its tokens, its original text and its 1-based
/// line number.
#[derive(Debug)]
pub struct Line {
    pub tokens: Vec<String>,
    pub orig: String,
    pub number: u32,
}

impl Line {
    pub fn new(tokens: Vec<String>, orig: String, number: u32) -> (l: Line)
        ensures
            l.tokens == tokens,
            l.orig == orig,
            l.number == number,
    {
        Line { tokens, orig, number }
    }

    /// An independent copy of this line.
    #[verifier::loop_isolation(false)]
    pub fn duplicate(&self) -> (r: Line)
        ensures
            r.tokens@.len() == self.tokens@.len(),
            forall|j: int|
                0 <= j < self.tokens@.len() ==> (#[trigger] r.tokens@[j])@ == self.tokens@[j]@,
            r.orig@ == self.orig@,
            r.number == self.number,
    {
        let mut tokens: Vec<String> = Vec::new();
        let mut i: usize = 0;
        while i < self.tokens.len()
            invariant
                i <= self.tokens@.len(),
                tokens@.len() == i,
                forall|j: int|
                    0 <= j < i ==> (#[trigger] tokens@[j])@ == self.tokens@[j]@,
            decreases self.tokens@.len() - i,
        {
            tokens.push(self.tokens[i].clone());
            i = i + 1;
        }
        Line { tokens, orig: self.orig.clone(), number: self.number }
    }
}

} // verus!
