//! The compiler: `:` starts a definition, `;` validates the buffered
//! tokens, rewrites `if`/`else`/`then` into forward branches and installs
//! the result in the dictionary.
use vstd::prelude::*;
use crate::dictionary::{Dictionary, Function, FunctionView};
use crate::instructions::Effect;
use crate::machine::{Machine, MachineView};
use crate::text::{decimal, decimal_string, ends_with_quote, has_closing_quote};
use crate::value::{ErrorType, Output, OutputView, Value, ValueView, is_kw, lemma_keywords_distinct, outputs, tokens};

verus! {

/// Whether `t` is a word that ends a string literal.
pub open spec fn closes_literal(t: ValueView) -> bool {
    match t {
        ValueView::Word(w) => ends_with_quote(w),
        ValueView::Number(_) => false,
    }
}

/// The name that a definition's first token gives: a word as it is, a
/// number in decimal notation.
pub open spec fn word_name(t: ValueView) -> Seq<char> {
    match t {
        ValueView::Word(w) => w,
        ValueView::Number(n) => decimal(n as int),
    }
}

/// The first word of `body`, from position `i` on, that `dict` does not
/// define, skipping the text of string literals (`in_literal`: position `i`
/// lies inside one).
pub open spec fn undefined_word(
    body: Seq<ValueView>,
    dict: Map<Seq<char>, FunctionView>,
    i: int,
    in_literal: bool,
) -> Option<Seq<char>>
    decreases body.len() - i,
{
    if i < 0 || i >= body.len() {
        None
    } else {
        match body[i] {
            ValueView::Number(_) => undefined_word(body, dict, i + 1, in_literal),
            ValueView::Word(w) => if in_literal {
                undefined_word(body, dict, i + 1, !ends_with_quote(w))
            } else if !dict.contains_key(w) {
                Some(w)
            } else {
                undefined_word(body, dict, i + 1, w == ".\""@)
            },
        }
    }
}

/// The largest offset a compiled branch can hold.
pub open spec fn offset_max() -> int {
    i32::MAX as int
}

/// Compiles the tokens of `s` from position `i` up to the `then` or `else`
/// that ends the current block, or to the end: each `if B then` becomes
/// `0branch n B` and each `if B else C then` becomes
/// `0branch n B branch m C`, where an offset counts from its own position
/// to the first token after the code it skips. Tokens inside a string
/// literal (`in_literal`) are kept as they are. Returns the code and the
/// position where the block ended.
pub open spec fn block(s: Seq<ValueView>, i: int, in_literal: bool) -> Result<
    (Seq<ValueView>, int),
    ErrorType,
>
    decreases s.len() - i,
{
    if i < 0 || i >= s.len() {
        Ok((Seq::empty(), i))
    } else if in_literal {
        match block(s, i + 1, !closes_literal(s[i])) {
            Ok((c, k)) => Ok((seq![s[i]] + c, k)),
            Err(e) => Err(e),
        }
    } else if is_kw(s[i], "then"@) || is_kw(s[i], "else"@) {
        Ok((Seq::empty(), i))
    } else if is_kw(s[i], "if"@) {
        match block(s, i + 1, false) {
            Err(e) => Err(e),
            Ok((c1, j)) => if j <= i || j >= s.len() {
                Err(ErrorType::UnbalancedControl)
            } else if is_kw(s[j], "then"@) {
                if c1.len() + 1 > offset_max() {
                    Err(ErrorType::CompilationError)
                } else {
                    match block(s, j + 1, false) {
                        Err(e) => Err(e),
                        Ok((c, k)) => Ok(
                            (
                                seq![
                                    ValueView::Word("0branch"@),
                                    ValueView::Number((c1.len() + 1) as i32),
                                ] + c1 + c,
                                k,
                            ),
                        ),
                    }
                }
            } else {
                match block(s, j + 1, false) {
                    Err(e) => Err(e),
                    Ok((c2, k)) => if k <= j || k >= s.len() || !is_kw(s[k], "then"@) {
                        Err(ErrorType::UnbalancedControl)
                    } else if c1.len() + 3 > offset_max() || c2.len() + 1 > offset_max() {
                        Err(ErrorType::CompilationError)
                    } else {
                        match block(s, k + 1, false) {
                            Err(e) => Err(e),
                            Ok((c, l)) => Ok(
                                (
                                    seq![
                                        ValueView::Word("0branch"@),
                                        ValueView::Number((c1.len() + 3) as i32),
                                    ] + c1 + seq![
                                        ValueView::Word("branch"@),
                                        ValueView::Number((c2.len() + 1) as i32),
                                    ] + c2 + c,
                                    l,
                                ),
                            ),
                        }
                    },
                }
            },
        }
    } else {
        match block(s, i + 1, is_kw(s[i], ".\""@)) {
            Ok((c, k)) => Ok((seq![s[i]] + c, k)),
            Err(e) => Err(e),
        }
    }
}

/// A compiled block with `out` placed before its code.
pub open spec fn after(out: Seq<ValueView>, r: Result<(Seq<ValueView>, int), ErrorType>) -> Result<
    (Seq<ValueView>, int),
    ErrorType,
> {
    match r {
        Ok((c, k)) => Ok((out + c, k)),
        Err(e) => Err(e),
    }
}

/// The compiled form of a definition's body: the whole body must form one
/// block, so a `then` or `else` without its `if` is unbalanced.
pub open spec fn translate(s: Seq<ValueView>) -> Result<Seq<ValueView>, ErrorType> {
    match block(s, 0, false) {
        Err(e) => Err(e),
        Ok((c, k)) => if k < s.len() {
            Err(ErrorType::UnbalancedControl)
        } else {
            Ok(c)
        },
    }
}

/// `:`: enters compile mode.
pub open spec fn compile_effect(m: MachineView) -> Effect {
    (MachineView { compile_mode: true, ..m }, Ok(()))
}

/// `;`: ends a definition. The first buffered token names it; the rest,
/// when every word it uses is defined and its control words balance, is
/// compiled and installed under that name, replacing an earlier definition.
/// The buffer is emptied whether or not the definition succeeds.
pub open spec fn finish_compile_effect(m: MachineView) -> Effect {
    if !m.compile_mode {
        (m, Err(ErrorType::OutsideCompileMode))
    } else if m.compile_buffer.len() == 0 {
        (MachineView { compile_mode: false, ..m }, Err(ErrorType::CompilationError))
    } else {
        let name = word_name(m.compile_buffer[0]);
        let body = m.compile_buffer.drop_first();
        let m1 = MachineView { compile_mode: false, compile_buffer: Seq::empty(), ..m };
        match undefined_word(body, m.dictionary, 0, false) {
            Some(w) => (
                MachineView { output: m.output.push(OutputView::UndefinedWord(w)), ..m1 },
                Err(ErrorType::CompilationError),
            ),
            None => match translate(body) {
                Err(e) => (m1, Err(e)),
                Ok(code) => (
                    MachineView {
                        dictionary: m.dictionary.insert(name, FunctionView::UserDefined(code)),
                        ..m1
                    },
                    Ok(()),
                ),
            },
        }
    }
}

fn closes(v: &Value) -> (r: bool)
    ensures
        r == closes_literal(v@),
{
    match v {
        Value::Word(w) => has_closing_quote(w),
        Value::Number(_) => false,
    }
}

/// The first word of `body` that `dict` does not define, outside string literals.
fn find_undefined(dict: &Dictionary, body: &Vec<Value>) -> (r: Option<String>)
    ensures
        match r {
            Some(w) => undefined_word(tokens(body@), dict@, 0, false) == Some(w@),
            None => undefined_word(tokens(body@), dict@, 0, false) is None,
        },
{
    let ghost b = tokens(body@);
    let mut in_literal = false;
    let mut i: usize = 0;
    while i < body.len()
        invariant
            b == tokens(body@),
            i <= body.len(),
            undefined_word(b, dict@, 0, false) == undefined_word(b, dict@, i as int, in_literal),
        decreases body.len() - i,
    {
        assert(b[i as int] == body@[i as int]@);
        match &body[i] {
            Value::Number(_) => {},
            Value::Word(w) => {
                if in_literal {
                    in_literal = !has_closing_quote(w);
                } else if !dict.contains_key(w) {
                    return Some(w.clone());
                } else {
                    let lit = String::from_str(".\"");
                    in_literal = *w == lit;
                }
            },
        }
        i += 1;
    }
    None
}

/// Compiles `s` from position `i` to the end of the current block, as
/// `block` states.
fn compile_block(s: &Vec<Value>, i: usize, in_literal: bool) -> (r: Result<(Vec<Value>, usize), ErrorType>)
    requires
        i <= s.len(),
    ensures
        match r {
            Ok((c, k)) => i <= k <= s.len() && block(tokens(s@), i as int, in_literal) == Ok::<
                (Seq<ValueView>, int),
                ErrorType,
            >((tokens(c@), k as int)),
            Err(e) => block(tokens(s@), i as int, in_literal) == Err::<(Seq<ValueView>, int), ErrorType>(
                e,
            ),
        },
    decreases s.len() - i,
{
    let ghost ts = tokens(s@);
    let mut out: Vec<Value> = Vec::new();
    let mut pos: usize = i;
    let mut lit = in_literal;
    proof {
        assert(tokens(out@) =~= Seq::empty());
        assert(after(Seq::empty(), block(ts, i as int, in_literal)) == block(ts, i as int, in_literal));
    }
    loop
        invariant
            ts == tokens(s@),
            i <= pos <= s.len(),
            block(ts, i as int, in_literal) == after(tokens(out@), block(ts, pos as int, lit)),
        decreases s.len() - pos,
    {
        if pos >= s.len() {
            proof {
                assert(tokens(out@) + Seq::empty() =~= tokens(out@));
                assert(block(ts, pos as int, lit) == Ok::<(Seq<ValueView>, int), ErrorType>((Seq::empty(), pos as int)));
            }
            return Ok((out, pos));
        }
        proof {
            lemma_keywords_distinct();
            assert(ts[pos as int] == s@[pos as int]@);
        }
        let ghost before = tokens(out@);
        if lit {
            lit = !closes(&s[pos]);
            out.push(s[pos].copy());
            proof {
                assert(tokens(out@) =~= before + seq![ts[pos as int]]);
                assert forall|c: Seq<ValueView>| #[trigger] (before + (seq![ts[pos as int]] + c)) == tokens(out@) + c by {
                    assert(before + (seq![ts[pos as int]] + c) =~= tokens(out@) + c);
                }
            }
            pos += 1;
        } else if s[pos].is_word("then") || s[pos].is_word("else") {
            proof {
                assert(tokens(out@) + Seq::empty() =~= tokens(out@));
            }
            return Ok((out, pos));
        } else if s[pos].is_word("if") {
            let (mut c1, j) = match compile_block(s, pos + 1, false) {
                Ok(x) => x,
                Err(e) => return Err(e),
            };
            if j >= s.len() {
                return Err(ErrorType::UnbalancedControl);
            }
            assert(ts[j as int] == s@[j as int]@);
            if s[j].is_word("then") {
                if c1.len() >= 2147483647 {
                    return Err(ErrorType::CompilationError);
                }
                let ghost tc1 = tokens(c1@);
                let n1 = (c1.len() + 1) as i32;
                out.push(Value::Word(String::from_str("0branch")));
                out.push(Value::Number(n1));
                out.append(&mut c1);
                proof {
                    let head = seq![ValueView::Word("0branch"@), ValueView::Number(n1)];
                    assert(tokens(out@) =~= before + head + tc1);
                    assert forall|c: Seq<ValueView>| #[trigger] (before + (head + tc1 + c)) == tokens(out@) + c by {
                        assert(before + (head + tc1 + c) =~= tokens(out@) + c);
                    }
                }
                pos = j + 1;
            } else {
                let (mut c2, k) = match compile_block(s, j + 1, false) {
                    Ok(x) => x,
                    Err(e) => return Err(e),
                };
                if k >= s.len() {
                    return Err(ErrorType::UnbalancedControl);
                }
                assert(ts[k as int] == s@[k as int]@);
                if !s[k].is_word("then") {
                    return Err(ErrorType::UnbalancedControl);
                }
                if c1.len() >= 2147483645 || c2.len() >= 2147483647 {
                    return Err(ErrorType::CompilationError);
                }
                let ghost tc1 = tokens(c1@);
                let ghost tc2 = tokens(c2@);
                let n1 = (c1.len() + 3) as i32;
                let n2 = (c2.len() + 1) as i32;
                out.push(Value::Word(String::from_str("0branch")));
                out.push(Value::Number(n1));
                out.append(&mut c1);
                out.push(Value::Word(String::from_str("branch")));
                out.push(Value::Number(n2));
                out.append(&mut c2);
                proof {
                    let h1 = seq![ValueView::Word("0branch"@), ValueView::Number(n1)];
                    let h2 = seq![ValueView::Word("branch"@), ValueView::Number(n2)];
                    assert(tokens(out@) =~= before + h1 + tc1 + h2 + tc2);
                    assert forall|c: Seq<ValueView>| #[trigger] (before + (h1 + tc1 + h2 + tc2 + c)) == tokens(out@) + c by {
                        assert(before + (h1 + tc1 + h2 + tc2 + c) =~= tokens(out@) + c);
                    }
                }
                pos = k + 1;
            }
        } else {
            lit = s[pos].is_word(".\"");
            out.push(s[pos].copy());
            proof {
                assert(tokens(out@) =~= before + seq![ts[pos as int]]);
                assert forall|c: Seq<ValueView>| #[trigger] (before + (seq![ts[pos as int]] + c)) == tokens(out@) + c by {
                    assert(before + (seq![ts[pos as int]] + c) =~= tokens(out@) + c);
                }
            }
            pos += 1;
        }
    }
}

/// Compiles a definition's body: `if`/`else`/`then` become `0branch` and
/// `branch` with their offsets.
pub fn translate_if(values: &Vec<Value>) -> (r: Result<Vec<Value>, ErrorType>)
    ensures
        match r {
            Ok(c) => translate(tokens(values@)) == Ok::<Seq<ValueView>, ErrorType>(tokens(c@)),
            Err(e) => translate(tokens(values@)) == Err::<Seq<ValueView>, ErrorType>(e),
        },
{
    match compile_block(values, 0, false) {
        Err(e) => Err(e),
        Ok((c, k)) => if k < values.len() {
            Err(ErrorType::UnbalancedControl)
        } else {
            Ok(c)
        },
    }
}

/// `:`
pub fn compile(machine: &mut Machine) -> (r: Result<(), ErrorType>)
    ensures
        (final(machine)@, r) == compile_effect(old(machine)@),
{
    machine.compile_mode = true;
    Ok(())
}

/// `;`
pub fn finish_compile(machine: &mut Machine) -> (r: Result<(), ErrorType>)
    ensures
        (final(machine)@, r) == finish_compile_effect(old(machine)@),
{
    if !machine.compile_mode {
        return Err(ErrorType::OutsideCompileMode);
    }
    machine.compile_mode = false;
    if machine.compile_buffer.len() == 0 {
        return Err(ErrorType::CompilationError);
    }
    let ghost m0 = old(machine)@;
    let mut body: Vec<Value> = Vec::new();
    std::mem::swap(&mut body, &mut machine.compile_buffer);
    let first = body.remove(0);
    proof {
        assert(tokens(body@) =~= m0.compile_buffer.drop_first());
        assert(tokens(machine.compile_buffer@) =~= Seq::empty());
    }
    let name = match first {
        Value::Word(w) => w,
        Value::Number(n) => decimal_string(n),
    };
    match find_undefined(&machine.dictionary, &body) {
        Some(w) => {
            let ghost wv = w@;
            machine.output.push(Output::UndefinedWord(w));
            assert(outputs(machine.output@) =~= m0.output.push(OutputView::UndefinedWord(wv)));
            return Err(ErrorType::CompilationError);
        },
        None => {},
    }
    match translate_if(&body) {
        Err(e) => Err(e),
        Ok(code) => {
            machine.dictionary.insert(name, Function::UserDefined(code));
            Ok(())
        },
    }
}

} // verus!
