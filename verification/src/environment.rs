use vstd::prelude::*;
use crate::token::Literal;

verus! {

/// A binding table from variable names to literal values.
///
/// Entries are appended; a later entry for a name shadows every earlier one,
/// so the abstract value is the map in which the last entry for each name
/// wins. `define` and `assign` both behave as map insertion, exactly as the
/// table's users expect.
#[derive(Debug)]
pub struct Environment {
    values: Vec<(String, Literal)>,
}

/// The map denoted by a sequence of bindings, later entries shadowing
/// earlier ones.
spec fn map_of(s: Seq<(String, Literal)>) -> Map<Seq<char>, Literal>
    decreases s.len(),
{
    if s.len() == 0 {
        Map::empty()
    } else {
        map_of(s.drop_last()).insert(s.last().0@, s.last().1)
    }
}

impl View for Environment {
    type V = Map<Seq<char>, Literal>;

    closed spec fn view(&self) -> Map<Seq<char>, Literal> {
        map_of(self.values@)
    }
}

impl Clone for Environment {
    fn clone(&self) -> (r: Self)
        ensures
            r@ == self@,
    {
        let mut values: Vec<(String, Literal)> = Vec::new();
        let n = self.values.len();
        let mut i: usize = 0;
        while i < n
            invariant
                i <= n,
                n == self.values.len(),
                values@ == self.values@.take(i as int),
            decreases n - i,
        {
            let pair = (self.values[i].0.clone(), self.values[i].1);
            values.push(pair);
            proof {
                assert(values@ =~= self.values@.take(i + 1));
            }
            i = i + 1;
        }
        proof {
            assert(self.values@.take(n as int) =~= self.values@);
        }
        Environment { values }
    }
}

impl Environment {
    pub fn new() -> (r: Self)
        ensures
            r@ == Map::<Seq<char>, Literal>::empty(),
    {
        Environment { values: Vec::new() }
    }

    /// Bind `name` to `value`, shadowing any earlier binding.
    pub fn define(&mut self, name: String, value: Literal)
        ensures
            final(self)@ == old(self)@.insert(name@, value),
    {
        self.values.push((name, value));
        proof {
            assert(self.values@.drop_last() =~= old(self).values@);
        }
    }

    /// Look up the current binding of `name`.
    ///
    /// A name that was never bound is a caller error: the analyzer is
    /// required to have pre-bound every name the evaluator will read.
    pub fn get(&self, name: String) -> (r: Literal)
        requires
            self@.contains_key(name@),
        ensures
            r == self@[name@],
    {
        proof {
            assert(self.values@.take(self.values@.len() as int) =~= self.values@);
        }
        let mut i = self.values.len();
        while i > 0
            invariant
                i <= self.values.len(),
                map_of(self.values@.take(i as int)).contains_key(name@),
                map_of(self.values@.take(i as int))[name@] == self@[name@],
            decreases i,
        {
            proof {
                assert(self.values@.take(i as int).drop_last() =~= self.values@.take(i - 1));
                assert(self.values@.take(i as int).last() == self.values@[i - 1]);
            }
            if self.values[i - 1].0 == name {
                return self.values[i - 1].1;
            }
            i = i - 1;
        }
        proof {
            assert(self.values@.take(0) =~= Seq::<(String, Literal)>::empty());
            assert(false);
        }
        Literal::Boolean(false)
    }

    /// Rebind `name` to `value`; the same map insertion as `define`.
    pub fn assign(&mut self, name: String, value: Literal)
        ensures
            final(self)@ == old(self)@.insert(name@, value),
    {
        self.values.push((name, value));
        proof {
            assert(self.values@.drop_last() =~= old(self).values@);
        }
    }
}

} // verus!
