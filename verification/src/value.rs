//! The runtime value model: the closed set of value variants, together
//! with the mathematical model used by every contract in the crate.

use vstd::prelude::*;

verus! {

broadcast use vstd::seq::axiom_seq_index_decreases;

/// A resolved, interned identifier: a numeric id unique within one parse
/// (assigned in interning order) and the symbol's name.  Two occurrences
/// of the same lexical symbol text within a single parse resolve to the
/// same id and name.
#[derive(Debug)]
pub struct Symbol {
    pub id: u64,
    pub name: String,
}

/// A named reference to a host primitive.  The value model stays
/// decoupled from any callable representation: the name is an opaque
/// handle that a registry resolves when the builtin is invoked.
#[derive(Debug)]
pub struct Builtin {
    pub name: String,
}

/// A runtime value: a closed, tagged union.  `QuoteOpen` and `QuoteClose`
/// are transient markers consumed by the evaluator's quotation protocol;
/// `Quotation` holds an ordered sequence of already-parsed values, and
/// `Word` is an identifier resolved lazily against the environment.
/// `Float` holds the text of the literal that denotes it; the host
/// converts the text to a machine number where it needs one.
#[derive(Debug)]
pub enum Value {
    Symbol(Symbol),
    Int(i64),
    Float(String),
    Boolean(bool),
    Mapping(Vec<(Value, Value)>),
    Vector(Vec<Value>),
    Text(String),
    QuoteOpen,
    QuoteClose,
    Quotation(Vec<Value>),
    Builtin(Builtin),
    Word(String),
}

/// The mathematical model of a [`Value`]: strings become sequences of
/// characters and nested containers become sequences of models, so that
/// contracts can speak of values structurally.
pub enum AbsValue {
    Symbol { id: nat, name: Seq<char> },
    Int(int),
    Float(Seq<char>),
    Boolean(bool),
    MapOf(Seq<(AbsValue, AbsValue)>),
    VecOf(Seq<AbsValue>),
    Text(Seq<char>),
    QuoteOpen,
    QuoteClose,
    Quotation(Seq<AbsValue>),
    Builtin(Seq<char>),
    Word(Seq<char>),
}

/// The models of a sequence of values, in order.
pub open spec fn seq_view(items: Seq<Value>) -> Seq<AbsValue>
    decreases items,
{
    if items.len() == 0 {
        Seq::empty()
    } else {
        seq_view(items.drop_last()).push(items.last().view())
    }
}

/// The models of a mapping's entry list, in order.
pub open spec fn entries_view(entries: Seq<(Value, Value)>) -> Seq<(AbsValue, AbsValue)>
    decreases entries,
{
    if entries.len() == 0 {
        Seq::empty()
    } else {
        entries_view(entries.drop_last()).push(
            (entries.last().0.view(), entries.last().1.view()),
        )
    }
}

/// `seq_view` maps a sequence of values pointwise to their models.
pub broadcast proof fn lemma_seq_view(items: Seq<Value>)
    ensures
        (#[trigger] seq_view(items)).len() == items.len(),
        forall|i: int| 0 <= i < items.len() ==> seq_view(items)[i] == items[i]@,
    decreases items,
{
    if items.len() > 0 {
        let d = items.drop_last();
        lemma_seq_view(d);
        assert(seq_view(items) == seq_view(d).push(items.last()@));
        assert forall|i: int| 0 <= i < items.len() implies seq_view(items)[i] == items[i]@ by {
            if i < items.len() - 1 {
                assert(d[i] == items[i]);
                assert(seq_view(items)[i] == seq_view(d)[i]);
            } else {
                assert(items.last() == items[i]);
                assert(seq_view(items)[i] == items.last()@);
            }
        }
    }
}

/// `entries_view` maps an entry list pointwise to pairs of models.
pub broadcast proof fn lemma_entries_view(entries: Seq<(Value, Value)>)
    ensures
        (#[trigger] entries_view(entries)).len() == entries.len(),
        forall|i: int|
            0 <= i < entries.len() ==> entries_view(entries)[i] == (
                entries[i].0@,
                entries[i].1@,
            ),
    decreases entries,
{
    if entries.len() > 0 {
        let d = entries.drop_last();
        lemma_entries_view(d);
        assert(entries_view(entries) == entries_view(d).push(
            (entries.last().0@, entries.last().1@),
        ));
        assert forall|i: int|
            0 <= i < entries.len() implies entries_view(entries)[i] == (
            entries[i].0@,
            entries[i].1@,
        ) by {
            if i < entries.len() - 1 {
                assert(d[i] == entries[i]);
                assert(entries_view(entries)[i] == entries_view(d)[i]);
            } else {
                assert(entries.last() == entries[i]);
                assert(entries_view(entries)[i] == (entries.last().0@, entries.last().1@));
            }
        }
    }
}

impl View for Value {
    type V = AbsValue;

    open spec fn view(&self) -> AbsValue
        decreases self,
    {
        match self {
            Value::Symbol(sym) => AbsValue::Symbol { id: sym.id as nat, name: sym.name@ },
            Value::Int(i) => AbsValue::Int(*i as int),
            Value::Float(text) => AbsValue::Float(text@),
            Value::Boolean(b) => AbsValue::Boolean(*b),
            Value::Mapping(entries) => AbsValue::MapOf(entries_view(entries@)),
            Value::Vector(items) => AbsValue::VecOf(seq_view(items@)),
            Value::Text(s) => AbsValue::Text(s@),
            Value::QuoteOpen => AbsValue::QuoteOpen,
            Value::QuoteClose => AbsValue::QuoteClose,
            Value::Quotation(items) => AbsValue::Quotation(seq_view(items@)),
            Value::Builtin(b) => AbsValue::Builtin(b.name@),
            Value::Word(w) => AbsValue::Word(w@),
        }
    }
}

impl DeepView for Value {
    type V = AbsValue;

    open spec fn deep_view(&self) -> AbsValue {
        self.view()
    }
}

/// Clones every value of a sequence.  Values are structurally copied:
/// a clone models the same [`AbsValue`] as its source.
pub(crate) fn clone_values(items: &Vec<Value>) -> (r: Vec<Value>)
    ensures
        seq_view(r@) == seq_view(items@),
    decreases *items,
{
    let mut r: Vec<Value> = Vec::new();
    let mut i: usize = 0;
    while i < items.len()
        invariant
            i <= items.len(),
            r@.len() == i,
            forall|j: int| 0 <= j < i ==> #[trigger] r@[j]@ == items@[j]@,
        decreases items.len() - i,
    {
        r.push(items[i].clone());
        i = i + 1;
    }
    proof {
        lemma_seq_view(r@);
        lemma_seq_view(items@);
        assert(seq_view(r@) =~= seq_view(items@));
    }
    r
}

/// Clones every entry of a mapping's entry list; each cloned pair models
/// the same pair of [`AbsValue`]s as its source.
fn clone_entries(entries: &Vec<(Value, Value)>) -> (r: Vec<(Value, Value)>)
    ensures
        entries_view(r@) == entries_view(entries@),
    decreases *entries,
{
    let mut r: Vec<(Value, Value)> = Vec::new();
    let mut i: usize = 0;
    while i < entries.len()
        invariant
            i <= entries.len(),
            r@.len() == i,
            forall|j: int|
                0 <= j < i ==> #[trigger] r@[j].0@ == entries@[j].0@ && r@[j].1@
                    == entries@[j].1@,
        decreases entries.len() - i,
    {
        let key = entries[i].0.clone();
        let val = entries[i].1.clone();
        r.push((key, val));
        i = i + 1;
    }
    proof {
        lemma_entries_view(r@);
        lemma_entries_view(entries@);
        assert(entries_view(r@) =~= entries_view(entries@));
    }
    r
}

impl Clone for Value {
    /// Structural copy: the clone models the same [`AbsValue`] as its
    /// source, so pushing or storing a value never aliases it.
    fn clone(&self) -> (r: Self)
        ensures
            r@ == self@,
        decreases self,
    {
        match self {
            Value::Symbol(sym) => Value::Symbol(Symbol { id: sym.id, name: sym.name.clone() }),
            Value::Int(i) => Value::Int(*i),
            Value::Float(text) => Value::Float(text.clone()),
            Value::Boolean(b) => Value::Boolean(*b),
            Value::Mapping(entries) => Value::Mapping(clone_entries(entries)),
            Value::Vector(items) => Value::Vector(clone_values(items)),
            Value::Text(s) => Value::Text(s.clone()),
            Value::QuoteOpen => Value::QuoteOpen,
            Value::QuoteClose => Value::QuoteClose,
            Value::Quotation(items) => Value::Quotation(clone_values(items)),
            Value::Builtin(b) => Value::Builtin(Builtin { name: b.name.clone() }),
            Value::Word(w) => Value::Word(w.clone()),
        }
    }
}

impl Clone for Symbol {
    /// Copies the id and the name; the copy models the same symbol.
    fn clone(&self) -> (r: Self)
        ensures
            r.id == self.id,
            r.name@ == self.name@,
    {
        Symbol { id: self.id, name: self.name.clone() }
    }
}

impl Clone for Builtin {
    /// Copies the handle; the copy names the same primitive.
    fn clone(&self) -> (r: Self)
        ensures
            r.name@ == self.name@,
    {
        Builtin { name: self.name.clone() }
    }
}

} // verus!
