//! Values that flow through the interpreter, the failures it reports and the
//! output it records, with their mathematical views.
use vstd::prelude::*;
use vstd::string::*;

verus! {

/// A token of source text or of a compiled body: a number or a word name.
#[derive(Clone, Debug, PartialEq, Eq)]
pub enum Value {
    Word(String),
    Number(i32),
}

/// The mathematical view of a `Value`.
pub enum ValueView {
    Word(Seq<char>),
    Number(i32),
}

impl View for Value {
    type V = ValueView;

    open spec fn view(&self) -> ValueView {
        match self {
            Value::Word(w) => ValueView::Word(w@),
            Value::Number(n) => ValueView::Number(*n),
        }
    }
}

/// The view of a sequence of values.
pub open spec fn tokens(v: Seq<Value>) -> Seq<ValueView> {
    v.map_values(|t: Value| t@)
}

/// Whether `t` is the word `w`.
pub open spec fn is_kw(t: ValueView, w: Seq<char>) -> bool {
    t == ValueView::Word(w)
}

/// The control words and the string-literal word are distinct words.
pub proof fn lemma_keywords_distinct()
    ensures
        "then"@ != "else"@,
        "if"@ != "then"@,
        "if"@ != "else"@,
        ".\""@ != "then"@,
        ".\""@ != "else"@,
        ".\""@ != "if"@,
{
    reveal_strlit("then");
    reveal_strlit("else");
    reveal_strlit("if");
    reveal_strlit(".\"");
    assert("then"@[0] != "else"@[0]);
    assert("if"@[0] != "then"@[0]);
    assert("if"@[0] != "else"@[0]);
    assert(".\""@[0] != "then"@[0]);
    assert(".\""@[0] != "else"@[0]);
    assert(".\""@[0] != "if"@[0]);
}

/// The failures of the interpreter.
#[derive(Clone, Copy, Debug, PartialEq, Eq, Structural)]
pub enum ErrorType {
    BranchOutOfBounds,
    CompilationError,
    InvalidOffset,
    OutsideCompileMode,
    StackUnderflow,
    WordNotFound,
    UnbalancedControl,
    /// `/` or `mod` with a zero divisor.
    DivisionByZero,
    /// Calls of user-defined words nested deeper than the machine allows.
    CallDepthExceeded,
}

/// What the interpreter hands to its user-facing output, in order.
#[derive(Clone, Debug, PartialEq, Eq)]
pub enum Output {
    /// `.` printed a number.
    Number(i32),
    /// `.s` printed the whole data stack, bottom first.
    Stack(Vec<i32>),
    /// `."` printed this text (ending in a newline when the literal was closed).
    Text(String),
    /// A word that is not in the dictionary was executed.
    UnknownWord(String),
    /// A definition referred to a word that is not in the dictionary.
    UndefinedWord(String),
}

/// The mathematical view of an `Output`.
pub enum OutputView {
    Number(i32),
    Stack(Seq<i32>),
    Text(Seq<char>),
    UnknownWord(Seq<char>),
    UndefinedWord(Seq<char>),
}

impl View for Output {
    type V = OutputView;

    open spec fn view(&self) -> OutputView {
        match self {
            Output::Number(n) => OutputView::Number(*n),
            Output::Stack(s) => OutputView::Stack(s@),
            Output::Text(t) => OutputView::Text(t@),
            Output::UnknownWord(w) => OutputView::UnknownWord(w@),
            Output::UndefinedWord(w) => OutputView::UndefinedWord(w@),
        }
    }
}

/// The view of a sequence of outputs.
pub open spec fn outputs(v: Seq<Output>) -> Seq<OutputView> {
    v.map_values(|o: Output| o@)
}

impl Value {
    /// A copy of this value.
    pub fn copy(&self) -> (r: Value)
        ensures
            r@ == self@,
    {
        match self {
            Value::Word(w) => Value::Word(w.clone()),
            Value::Number(n) => Value::Number(*n),
        }
    }

    /// Whether this value is the word `w`.
    pub fn is_word(&self, w: &str) -> (r: bool)
        ensures
            r == is_kw(self@, w@),
    {
        match self {
            Value::Word(s) => {
                let other = String::from_str(w);
                *s == other
            },
            Value::Number(_) => false,
        }
    }
}

/// A copy of a sequence of values.
pub fn copy_values(v: &Vec<Value>) -> (r: Vec<Value>)
    ensures
        tokens(r@) == tokens(v@),
{
    let mut r: Vec<Value> = Vec::new();
    let mut i: usize = 0;
    while i < v.len()
        invariant
            i <= v.len(),
            r@.len() == i,
            forall|k: int| 0 <= k < i ==> #[trigger] r@[k]@ == v@[k]@,
        decreases v.len() - i,
    {
        r.push(v[i].copy());
        i += 1;
    }
    proof {
        assert(tokens(r@) =~= tokens(v@));
    }
    r
}

} // verus!
