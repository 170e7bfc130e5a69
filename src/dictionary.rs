//! The dictionary: word names mapped to built-in primitives, user-defined
//! bodies or structural markers.
use vstd::prelude::*;
use crate::value::{Value, ValueView, tokens};

verus! {

/// The native operations of the machine.
#[derive(Clone, Copy, Debug, PartialEq, Eq, Structural)]
pub enum Primitive {
    Compile,
    FinishCompile,
    Add,
    Sub,
    Mult,
    Div,
    Mod,
    Dup,
    Drop,
    Swap,
    Over,
    Rot,
    Dot,
    DotS,
    DotQuote,
    Eq,
    GreaterThan,
    LessThan,
    And,
    Or,
    Invert,
    ClearStack,
    Branch0,
    Branch,
    ToR,
    FromR,
    If,
    Then,
    Else,
}

/// What a word of the dictionary stands for.
#[derive(Clone, Debug)]
pub enum Function {
    /// A native operation.
    Builtin(Primitive),
    /// A compiled instruction sequence.
    UserDefined(Vec<Value>),
    /// A marker that is legal only while compiling.
    Action,
}

/// The mathematical view of a `Function`.
pub enum FunctionView {
    Builtin(Primitive),
    UserDefined(Seq<ValueView>),
    Action,
}

impl View for Function {
    type V = FunctionView;

    open spec fn view(&self) -> FunctionView {
        match self {
            Function::Builtin(p) => FunctionView::Builtin(*p),
            Function::UserDefined(body) => FunctionView::UserDefined(tokens(body@)),
            Function::Action => FunctionView::Action,
        }
    }
}

impl Function {
    /// A copy of this function.
    pub fn copy(&self) -> (r: Function)
        ensures
            r@ == self@,
    {
        match self {
            Function::Builtin(p) => Function::Builtin(*p),
            Function::UserDefined(body) => Function::UserDefined(crate::value::copy_values(body)),
            Function::Action => Function::Action,
        }
    }
}

/// One definition of the dictionary.
#[derive(Debug)]
pub struct Entry {
    pub name: String,
    pub function: Function,
}

/// The map that a list of definitions stands for: a later definition of a
/// name replaces an earlier one.
pub open spec fn entries_map(es: Seq<Entry>) -> Map<Seq<char>, FunctionView>
    decreases es.len(),
{
    if es.len() == 0 {
        Map::empty()
    } else {
        entries_map(es.drop_last()).insert(es.last().name@, es.last().function@)
    }
}

/// Definitions after position `i` that do not name `key` leave its meaning
/// as the first `i` definitions give it.
proof fn lemma_entries_prefix(es: Seq<Entry>, i: int, key: Seq<char>)
    requires
        0 <= i <= es.len(),
        forall|k: int| i <= k < es.len() ==> #[trigger] es[k].name@ != key,
    ensures
        entries_map(es).contains_key(key) == entries_map(es.subrange(0, i)).contains_key(key),
        entries_map(es)[key] == entries_map(es.subrange(0, i))[key],
    decreases es.len(),
{
    if i == es.len() {
        assert(es.subrange(0, i) =~= es);
    } else {
        let d = es.drop_last();
        assert(es[es.len() - 1].name@ != key);
        assert forall|k: int| i <= k < d.len() implies #[trigger] d[k].name@ != key by {
            assert(d[k] == es[k]);
        }
        lemma_entries_prefix(d, i, key);
        assert(d.subrange(0, i) =~= es.subrange(0, i));
    }
}

/// A mapping from word names to functions; a later definition of a name
/// replaces the earlier one. The definitions are kept in a list, searched
/// from the newest, whose view is a `Map`: over a `HashMap` keyed by
/// `String`, vstd gives no specification from which a lookup could be
/// proved.
#[derive(Debug)]
pub struct Dictionary {
    entries: Vec<Entry>,
}

impl View for Dictionary {
    type V = Map<Seq<char>, FunctionView>;

    closed spec fn view(&self) -> Map<Seq<char>, FunctionView> {
        entries_map(self.entries@)
    }
}

impl Dictionary {
    /// An empty dictionary.
    pub fn new() -> (d: Dictionary)
        ensures
            d@ == Map::<Seq<char>, FunctionView>::empty(),
    {
        Dictionary { entries: Vec::new() }
    }

    /// Defines `name` as `function`, replacing any earlier definition.
    pub fn insert(&mut self, name: String, function: Function)
        ensures
            final(self)@ == old(self)@.insert(name@, function@),
    {
        let ghost n = name@;
        let ghost f = function@;
        self.entries.push(Entry { name, function });
        proof {
            assert(self.entries@.drop_last() =~= old(self).entries@);
        }
    }

    /// The position of the latest definition of `name`.
    fn position(&self, name: &String) -> (r: Option<usize>)
        ensures
            match r {
                Some(i) => i < self.entries@.len() && self.entries@[i as int].name@ == name@
                    && self@.contains_key(name@)
                    && self@[name@] == self.entries@[i as int].function@,
                None => !self@.contains_key(name@),
            },
    {
        let mut i: usize = self.entries.len();
        while i > 0
            invariant
                i <= self.entries@.len(),
                forall|k: int| i <= k < self.entries@.len() ==> #[trigger] self.entries@[k].name@
                    != name@,
            decreases i,
        {
            if self.entries[i - 1].name == *name {
                proof {
                    let es = self.entries@;
                    lemma_entries_prefix(es, i as int, name@);
                    assert(es.subrange(0, i as int).drop_last() =~= es.subrange(0, i - 1));
                }
                return Some(i - 1);
            }
            i -= 1;
        }
        proof {
            lemma_entries_prefix(self.entries@, 0, name@);
        }
        None
    }

    /// The function that `name` stands for, if it is defined.
    pub fn get(&self, name: &String) -> (r: Option<&Function>)
        ensures
            match r {
                Some(f) => self@.contains_key(name@) && self@[name@] == f@,
                None => !self@.contains_key(name@),
            },
    {
        match self.position(name) {
            Some(i) => Some(&self.entries[i].function),
            None => None,
        }
    }

    /// Whether `name` is defined.
    pub fn contains_key(&self, name: &String) -> (r: bool)
        ensures
            r == self@.contains_key(name@),
    {
        self.position(name).is_some()
    }
}

} // verus!
