use vstd::prelude::*;

verus! {

/// One entry of a to-do list.
#[derive(Debug, Clone, PartialEq)]
pub struct ToDo {
    pub title: String,
    pub completed: bool,
}

/// A list of to-do entries, kept in the order they were added.
#[derive(Debug, Clone, PartialEq)]
pub struct ToDos(pub Vec<ToDo>);

/// Number of entries of `s` that are not completed.
pub open spec fn count_open(s: Seq<ToDo>) -> nat
    decreases s.len(),
{
    if s.len() == 0 {
        0
    } else {
        count_open(s.drop_last()) + if s.last().completed {
            0nat
        } else {
            1nat
        }
    }
}

proof fn lemma_count_open_bound(s: Seq<ToDo>)
    ensures
        count_open(s) <= s.len(),
    decreases s.len(),
{
    if s.len() > 0 {
        lemma_count_open_bound(s.drop_last());
    }
}

impl ToDo {
    /// A fresh entry: not completed yet.
    pub fn new(title: String) -> (r: ToDo)
        ensures
            r.title == title,
            !r.completed,
    {
        ToDo { title: title, completed: false }
    }

    /// Flips the completion mark.
    pub fn toggle(&mut self)
        ensures
            final(self).title == old(self).title,
            final(self).completed == !old(self).completed,
    {
        self.completed = !self.completed;
    }
}

impl ToDos {
    /// How many entries are still open.
    pub fn num_remaining(&self) -> (r: usize)
        ensures
            r == count_open(self.0@),
    {
        let mut n: usize = 0;
        let mut i: usize = 0;
        while i < self.0.len()
            invariant
                i <= self.0@.len(),
                n == count_open(self.0@.subrange(0, i as int)),
            decreases self.0@.len() - i,
        {
            proof {
                let s = self.0@.subrange(0, i as int + 1);
                assert(s.drop_last() =~= self.0@.subrange(0, i as int));
                lemma_count_open_bound(self.0@.subrange(0, i as int));
            }
            if !self.0[i].completed {
                n = n + 1;
            }
            i = i + 1;
        }
        assert(self.0@.subrange(0, i as int) =~= self.0@);
        n
    }

    /// A copy of the entries, in order.
    pub fn get(&self) -> (r: Vec<ToDo>)
        ensures
            r@ == self.0@,
    {
        let mut out: Vec<ToDo> = Vec::new();
        let mut i: usize = 0;
        while i < self.0.len()
            invariant
                i <= self.0@.len(),
                out@ == self.0@.subrange(0, i as int),
            decreases self.0@.len() - i,
        {
            let t = &self.0[i];
            out.push(ToDo { title: t.title.clone(), completed: t.completed });
            i = i + 1;
        }
        assert(self.0@.subrange(0, i as int) =~= self.0@);
        out
    }

    /// Appends a fresh, open entry with the given title.
    pub fn new_todo(&mut self, title: String)
        ensures
            final(self).0@ == old(self).0@.push(ToDo { title: title, completed: false }),
    {
        self.0.push(ToDo::new(title));
    }
}

} // verus!
