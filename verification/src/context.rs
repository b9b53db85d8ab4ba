//! The mutable execution state: the value stack, the flat environment,
//! and the context bundling exactly one of each.

use vstd::prelude::*;
use crate::value::AbsValue;
use crate::value::Value;

verus! {

/// The data stack: an ordered, mutable sequence of values used as the
/// sole data-passing mechanism between builtins and word evaluation.
/// Modelled as the sequence of its values' models, bottom first.
#[derive(Debug)]
pub struct Stack {
    pub stk: Vec<Value>,
}

impl View for Stack {
    type V = Seq<AbsValue>;

    open spec fn view(&self) -> Seq<AbsValue> {
        self.stk.deep_view()
    }
}

impl Stack {
    /// An empty stack.
    pub fn new() -> (s: Self)
        ensures
            s@ == Seq::<AbsValue>::empty(),
    {
        let s = Stack { stk: Vec::new() };
        proof {
            assert(s@ =~= Seq::<AbsValue>::empty());
        }
        s
    }

    /// Pushes a value on top of the stack.  Always succeeds.
    pub fn push(&mut self, val: Value)
        ensures
            final(self)@ == old(self)@.push(val@),
    {
        self.stk.push(val);
        proof {
            assert(self@ =~= old(self)@.push(val@));
        }
    }

    /// Removes and returns the top of the stack, or `None` when the
    /// stack is empty.
    pub fn pop(&mut self) -> (r: Option<Value>)
        ensures
            old(self)@.len() == 0 ==> final(self)@ == old(self)@ && r is None,
            old(self)@.len() > 0 ==> (r matches Some(v) && v@ == old(self)@.last()
                && final(self)@ == old(self)@.drop_last()),
    {
        let r = self.stk.pop();
        proof {
            if old(self)@.len() > 0 {
                assert(self@ =~= old(self)@.drop_last());
            } else {
                assert(self@ =~= old(self)@);
            }
        }
        r
    }

    /// Returns the top of the stack without removing it, or `None` when
    /// the stack is empty.
    pub fn peek(&self) -> (r: Option<&Value>)
        ensures
            self@.len() == 0 ==> r is None,
            self@.len() > 0 ==> (r matches Some(v) && v@ == self@.last()),
    {
        if self.stk.len() == 0 {
            None
        } else {
            Some(&self.stk[self.stk.len() - 1])
        }
    }
}

/// The model of an environment's binding list: later entries shadow
/// earlier ones, so the list denotes the map built by inserting the
/// entries in order.
pub open spec fn env_map(entries: Seq<(String, Value)>) -> Map<Seq<char>, AbsValue>
    decreases entries,
{
    if entries.len() == 0 {
        Map::empty()
    } else {
        env_map(entries.drop_last()).insert(entries.last().0@, entries.last().1@)
    }
}

/// The environment: a flat mapping from name to value, session-scoped,
/// with no scoping and no shadowing.  An insert overwrites any existing
/// binding unconditionally.
#[derive(Debug)]
pub struct Env {
    pub table: Vec<(String, Value)>,
}

impl View for Env {
    type V = Map<Seq<char>, AbsValue>;

    open spec fn view(&self) -> Map<Seq<char>, AbsValue> {
        env_map(self.table@)
    }
}

impl Env {
    /// An empty environment.
    pub fn new() -> (e: Self)
        ensures
            e@ == Map::<Seq<char>, AbsValue>::empty(),
    {
        Env { table: Vec::new() }
    }

    /// Binds `s` to `val`, overwriting any existing binding.
    pub fn insert(&mut self, s: &str, val: Value)
        ensures
            final(self)@ == old(self)@.insert(s@, val@),
    {
        let name = String::from_str(s);
        self.table.push((name, val));
        proof {
            assert(self.table@.drop_last() =~= old(self).table@);
        }
    }

    /// Looks a name up, returning the value it is bound to, if any.
    pub fn get(&self, s: &str) -> (r: Option<&Value>)
        ensures
            self@.contains_key(s@) ==> (r matches Some(v) && v@ == self@[s@]),
            !self@.contains_key(s@) ==> r is None,
    {
        let key = String::from_str(s);
        let mut j: usize = self.table.len();
        proof {
            assert(self.table@.take(j as int) =~= self.table@);
        }
        while j > 0
            invariant
                j <= self.table@.len(),
                key@ == s@,
                env_map(self.table@.take(j as int)).contains_key(s@) == self@.contains_key(s@),
                self@.contains_key(s@) ==> env_map(self.table@.take(j as int))[s@] == self@[s@],
            decreases j,
        {
            proof {
                assert(self.table@.take(j as int).drop_last() =~= self.table@.take(j as int - 1));
            }
            if self.table[j - 1].0 == key {
                return Some(&self.table[j - 1].1);
            }
            j = j - 1;
        }
        proof {
            assert(self.table@.take(0) =~= Seq::<(String, Value)>::empty());
        }
        None
    }
}

/// The mutable execution state bundling exactly one environment and one
/// stack, passed by exclusive mutable reference to every builtin
/// invocation and recursive evaluation call.
#[derive(Debug)]
pub struct Context {
    pub env: Env,
    pub stack: Stack,
}

impl Context {
    /// A fresh context: empty stack, empty environment.
    pub fn new() -> (c: Self)
        ensures
            c.stack@ == Seq::<AbsValue>::empty(),
            c.env@ == Map::<Seq<char>, AbsValue>::empty(),
    {
        Context { env: Env::new(), stack: Stack::new() }
    }
}

} // verus!
