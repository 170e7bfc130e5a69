//! The primitive operations of the machine. Each is stated by a spec
//! function from the machine's state to its next state and result.
use vstd::prelude::*;
use crate::dictionary::Primitive;
use crate::machine::{Machine, MachineView, with_stack};
use crate::text::{decimal, decimal_string, ends_with_quote, has_closing_quote, strip_quotes, without_quotes};
use crate::value::{ErrorType, Output, OutputView, Value, ValueView, is_kw, lemma_keywords_distinct, outputs};

verus! {

/// The next state of the machine and the result of an operation.
pub type Effect = (MachineView, Result<(), ErrorType>);

/// The boolean convention of the machine: true is all bits set.
pub open spec fn flag(b: bool) -> i32 {
    if b {
        -1i32
    } else {
        0i32
    }
}

/// The primitives that pop two values and push one.
pub open spec fn is_binary(p: Primitive) -> bool {
    match p {
        Primitive::Add | Primitive::Sub | Primitive::Mult | Primitive::Div | Primitive::Mod
        | Primitive::Eq | Primitive::GreaterThan | Primitive::LessThan | Primitive::And
        | Primitive::Or => true,
        _ => false,
    }
}

/// The value that a binary primitive pushes, where `a` is the value popped
/// first (the top of the stack) and `b` the value popped second. Arithmetic
/// wraps around on overflow.
pub open spec fn binary_value(p: Primitive, a: i32, b: i32) -> i32 {
    match p {
        Primitive::Add => a.wrapping_add(b),
        Primitive::Sub => a.wrapping_sub(b),
        Primitive::Mult => a.wrapping_mul(b),
        Primitive::Div => match a.checked_div(b) {
            Some(q) => q,
            None => a,
        },
        Primitive::Mod => match a.checked_rem(b) {
            Some(q) => q,
            None => 0,
        },
        Primitive::Eq => flag(a == b),
        Primitive::GreaterThan => flag(b > a),
        Primitive::LessThan => flag(b < a),
        Primitive::And => a & b,
        Primitive::Or => a | b,
        _ => 0,
    }
}

/// A binary primitive: pops `a`, then `b`, and pushes `binary_value(p, a, b)`.
/// On underflow the values already popped stay popped.
pub open spec fn binary_effect(p: Primitive, m: MachineView) -> Effect {
    let s = m.stack;
    let n = s.len();
    if n == 0 {
        (m, Err(ErrorType::StackUnderflow))
    } else if n == 1 {
        (with_stack(m, Seq::empty()), Err(ErrorType::StackUnderflow))
    } else {
        let a = s[n - 1];
        let b = s[n - 2];
        let rest = s.subrange(0, n - 2);
        if (p == Primitive::Div || p == Primitive::Mod) && b == 0 {
            (with_stack(m, rest), Err(ErrorType::DivisionByZero))
        } else {
            (with_stack(m, rest.push(binary_value(p, a, b))), Ok(()))
        }
    }
}

/// `dup`: the top value is duplicated.
pub open spec fn dup_effect(m: MachineView) -> Effect {
    let s = m.stack;
    if s.len() == 0 {
        (m, Err(ErrorType::StackUnderflow))
    } else {
        (with_stack(m, s.push(s.last())), Ok(()))
    }
}

/// `drop`: the top value is discarded.
pub open spec fn drop_effect(m: MachineView) -> Effect {
    let s = m.stack;
    if s.len() == 0 {
        (m, Err(ErrorType::StackUnderflow))
    } else {
        (with_stack(m, s.drop_last()), Ok(()))
    }
}

/// `swap`: `.. b a` becomes `.. a b`.
pub open spec fn swap_effect(m: MachineView) -> Effect {
    let s = m.stack;
    let n = s.len();
    if n == 0 {
        (m, Err(ErrorType::StackUnderflow))
    } else if n == 1 {
        (with_stack(m, Seq::empty()), Err(ErrorType::StackUnderflow))
    } else {
        (with_stack(m, s.subrange(0, n - 2) + seq![s[n - 1], s[n - 2]]), Ok(()))
    }
}

/// `over`: `.. b a` becomes `.. b a b`.
pub open spec fn over_effect(m: MachineView) -> Effect {
    let s = m.stack;
    let n = s.len();
    if n == 0 {
        (m, Err(ErrorType::StackUnderflow))
    } else if n == 1 {
        (with_stack(m, Seq::empty()), Err(ErrorType::StackUnderflow))
    } else {
        (with_stack(m, s.push(s[n - 2])), Ok(()))
    }
}

/// `rot`: `.. c b a` becomes `.. b a c`.
pub open spec fn rot_effect(m: MachineView) -> Effect {
    let s = m.stack;
    let n = s.len();
    if n == 0 {
        (m, Err(ErrorType::StackUnderflow))
    } else if n < 3 {
        (with_stack(m, Seq::empty()), Err(ErrorType::StackUnderflow))
    } else {
        (with_stack(m, s.subrange(0, n - 3) + seq![s[n - 2], s[n - 1], s[n - 3]]), Ok(()))
    }
}

/// `invert`: the top value is replaced by its bitwise complement.
pub open spec fn invert_effect(m: MachineView) -> Effect {
    let s = m.stack;
    if s.len() == 0 {
        (m, Err(ErrorType::StackUnderflow))
    } else {
        (with_stack(m, s.drop_last().push(!s.last())), Ok(()))
    }
}

/// `.`: the top value is popped and printed.
pub open spec fn dot_effect(m: MachineView) -> Effect {
    let s = m.stack;
    if s.len() == 0 {
        (m, Err(ErrorType::StackUnderflow))
    } else {
        (
            MachineView {
                stack: s.drop_last(),
                output: m.output.push(OutputView::Number(s.last())),
                ..m
            },
            Ok(()),
        )
    }
}

/// `.s`: the whole data stack is printed and kept.
pub open spec fn sdot_effect(m: MachineView) -> Effect {
    (MachineView { output: m.output.push(OutputView::Stack(m.stack)), ..m }, Ok(()))
}

/// The text that a string literal starting at position `i` of `data` prints,
/// and the position after it: each token up to the first word that ends
/// with a quote is printed followed by a space; that word is printed without
/// its quotes and followed by a newline.
pub open spec fn quote_text(data: Seq<ValueView>, i: int) -> (Seq<char>, int)
    decreases data.len() - i,
{
    if i < 0 || i >= data.len() {
        (Seq::empty(), i)
    } else {
        match data[i] {
            ValueView::Word(w) => if ends_with_quote(w) {
                (without_quotes(w).push('\n'), i + 1)
            } else {
                let (t, j) = quote_text(data, i + 1);
                (w.push(' ') + t, j)
            },
            ValueView::Number(n) => {
                let (t, j) = quote_text(data, i + 1);
                (decimal(n as int).push(' ') + t, j)
            },
        }
    }
}

/// `."`: prints the string literal that follows in the instruction stream
/// and moves the instruction pointer past it.
pub open spec fn dot_quote_effect(m: MachineView) -> Effect {
    if m.pc >= m.data.len() {
        (m, Ok(()))
    } else {
        let (t, j) = quote_text(m.data, m.pc);
        (MachineView { output: m.output.push(OutputView::Text(t)), pc: j, ..m }, Ok(()))
    }
}

/// `branch`: a jump by the offset stored at the instruction pointer. Offsets count
/// forward from the offset's own position; a jump past the end of the stream
/// ends its run.
pub open spec fn branch_effect(m: MachineView) -> Effect {
    if m.pc < 0 || m.pc >= m.data.len() {
        (m, Err(ErrorType::BranchOutOfBounds))
    } else {
        match m.data[m.pc] {
            ValueView::Number(n) => if n < 0 {
                (m, Err(ErrorType::InvalidOffset))
            } else {
                (MachineView { pc: m.pc + n, ..m }, Ok(()))
            },
            ValueView::Word(_) => (m, Err(ErrorType::InvalidOffset)),
        }
    }
}

/// `0branch`: pops a flag; on a non-zero flag skips the offset that follows,
/// on zero jumps by it.
pub open spec fn branch0_effect(m: MachineView) -> Effect {
    let s = m.stack;
    if s.len() == 0 {
        (m, Err(ErrorType::StackUnderflow))
    } else {
        let m1 = with_stack(m, s.drop_last());
        if s.last() != 0 {
            (MachineView { pc: m.pc + 1, ..m1 }, Ok(()))
        } else {
            branch_effect(m1)
        }
    }
}

/// `>r`: moves the top of the data stack to the return stack.
pub open spec fn to_r_effect(m: MachineView) -> Effect {
    let s = m.stack;
    if s.len() == 0 {
        (m, Err(ErrorType::StackUnderflow))
    } else {
        (
            MachineView { stack: s.drop_last(), return_stack: m.return_stack.push(s.last()), ..m },
            Ok(()),
        )
    }
}

/// `r>`: moves the top of the return stack to the data stack.
pub open spec fn from_r_effect(m: MachineView) -> Effect {
    let r = m.return_stack;
    if r.len() == 0 {
        (m, Err(ErrorType::StackUnderflow))
    } else {
        (MachineView { stack: m.stack.push(r.last()), return_stack: r.drop_last(), ..m }, Ok(()))
    }
}

/// The position, from `i` on, of the `then` (or, when `stop_at_else`, the
/// `else`) that closes the current `if`, `depth` counting the `if`s opened
/// since; the end of `data` when there is none.
pub open spec fn find_match(data: Seq<ValueView>, i: int, depth: int, stop_at_else: bool) -> int
    decreases data.len() - i,
{
    if i < 0 || i >= data.len() {
        i
    } else if is_kw(data[i], "then"@) && depth == 0 {
        i
    } else if stop_at_else && is_kw(data[i], "else"@) && depth == 0 {
        i
    } else if is_kw(data[i], "if"@) {
        find_match(data, i + 1, depth + 1, stop_at_else)
    } else if is_kw(data[i], "then"@) {
        find_match(data, i + 1, depth - 1, stop_at_else)
    } else {
        find_match(data, i + 1, depth, stop_at_else)
    }
}

/// `if`, executed in place: pops a flag; on zero moves the instruction
/// pointer to the matching `else` (noting on the control-flow stack that
/// the else branch is selected) or `then`.
pub open spec fn if_effect(m: MachineView) -> Effect {
    let s = m.stack;
    if s.len() == 0 {
        (m, Err(ErrorType::StackUnderflow))
    } else {
        let m1 = with_stack(m, s.drop_last());
        if s.last() != 0 {
            (m1, Ok(()))
        } else {
            let j = find_match(m.data, m.pc, 0, true);
            if j >= m.data.len() {
                (MachineView { pc: j, ..m1 }, Err(ErrorType::UnbalancedControl))
            } else if is_kw(m.data[j], "else"@) {
                (
                    MachineView {
                        pc: j,
                        control_flow_stack: m.control_flow_stack.push(0),
                        ..m1
                    },
                    Ok(()),
                )
            } else {
                (MachineView { pc: j, ..m1 }, Ok(()))
            }
        }
    }
}

/// `else`, executed in place: pops the control-flow stack (1 when empty); on
/// a non-zero flag moves the instruction pointer to the matching `then`.
pub open spec fn else_effect(m: MachineView) -> Effect {
    let c = m.control_flow_stack;
    let f = if c.len() == 0 {
        1
    } else {
        c.last()
    };
    let m1 = MachineView {
        control_flow_stack: if c.len() == 0 {
            c
        } else {
            c.drop_last()
        },
        ..m
    };
    if f == 0 {
        (m1, Ok(()))
    } else {
        let j = find_match(m.data, m.pc, 0, false);
        (
            MachineView { pc: j, ..m1 },
            if j >= m.data.len() {
                Err(ErrorType::UnbalancedControl)
            } else {
                Ok(())
            },
        )
    }
}

fn apply_binary(p: Primitive, a: i32, b: i32) -> (r: i32)
    requires
        is_binary(p),
        (p == Primitive::Div || p == Primitive::Mod) ==> b != 0,
    ensures
        r == binary_value(p, a, b),
{
    match p {
        Primitive::Add => a.wrapping_add(b),
        Primitive::Sub => a.wrapping_sub(b),
        Primitive::Mult => a.wrapping_mul(b),
        Primitive::Div => match a.checked_div(b) {
            Some(q) => q,
            None => a,
        },
        Primitive::Mod => match a.checked_rem(b) {
            Some(q) => q,
            None => 0,
        },
        Primitive::Eq => if a == b {
            -1
        } else {
            0
        },
        Primitive::GreaterThan => if b > a {
            -1
        } else {
            0
        },
        Primitive::LessThan => if b < a {
            -1
        } else {
            0
        },
        Primitive::And => a & b,
        _ => a | b,
    }
}

fn binary(machine: &mut Machine, p: Primitive) -> (r: Result<(), ErrorType>)
    requires
        is_binary(p),
    ensures
        (final(machine)@, r) == binary_effect(p, old(machine)@),
{
    let a = match machine.pop() {
        Some(n) => n,
        None => return Err(ErrorType::StackUnderflow),
    };
    let b = match machine.pop() {
        Some(n) => n,
        None => {
            assert(old(machine)@.stack.drop_last() =~= Seq::empty());
            return Err(ErrorType::StackUnderflow);
        },
    };
    let ghost s = old(machine)@.stack;
    assert(s.drop_last().drop_last() =~= s.subrange(0, s.len() - 2));
    if (p == Primitive::Div || p == Primitive::Mod) && b == 0 {
        return Err(ErrorType::DivisionByZero);
    }
    machine.push(apply_binary(p, a, b));
    Ok(())
}

/// `+`: pushes `a + b` (wrapping).
pub fn add(machine: &mut Machine) -> (r: Result<(), ErrorType>)
    ensures
        (final(machine)@, r) == binary_effect(Primitive::Add, old(machine)@),
{
    binary(machine, Primitive::Add)
}

/// `-`: pushes `a - b` (wrapping), `a` being the top of the stack.
pub fn sub(machine: &mut Machine) -> (r: Result<(), ErrorType>)
    ensures
        (final(machine)@, r) == binary_effect(Primitive::Sub, old(machine)@),
{
    binary(machine, Primitive::Sub)
}

/// `*`: pushes `a * b` (wrapping).
pub fn mult(machine: &mut Machine) -> (r: Result<(), ErrorType>)
    ensures
        (final(machine)@, r) == binary_effect(Primitive::Mult, old(machine)@),
{
    binary(machine, Primitive::Mult)
}

/// `/`: pushes `a / b` rounded toward zero, `a` being the top of the stack.
pub fn div(machine: &mut Machine) -> (r: Result<(), ErrorType>)
    ensures
        (final(machine)@, r) == binary_effect(Primitive::Div, old(machine)@),
{
    binary(machine, Primitive::Div)
}

/// `mod`: pushes the remainder of `a / b`, `a` being the top of the stack.
pub fn mod_(machine: &mut Machine) -> (r: Result<(), ErrorType>)
    ensures
        (final(machine)@, r) == binary_effect(Primitive::Mod, old(machine)@),
{
    binary(machine, Primitive::Mod)
}

/// `=`: pushes -1 when the two top values are equal, else 0.
pub fn eq(machine: &mut Machine) -> (r: Result<(), ErrorType>)
    ensures
        (final(machine)@, r) == binary_effect(Primitive::Eq, old(machine)@),
{
    binary(machine, Primitive::Eq)
}

/// `>`: pushes -1 when the second value is greater than the top, else 0.
pub fn greater_than(machine: &mut Machine) -> (r: Result<(), ErrorType>)
    ensures
        (final(machine)@, r) == binary_effect(Primitive::GreaterThan, old(machine)@),
{
    binary(machine, Primitive::GreaterThan)
}

/// `<`: pushes -1 when the second value is less than the top, else 0.
pub fn less_than(machine: &mut Machine) -> (r: Result<(), ErrorType>)
    ensures
        (final(machine)@, r) == binary_effect(Primitive::LessThan, old(machine)@),
{
    binary(machine, Primitive::LessThan)
}

/// `and`: pushes the bitwise and of the two top values.
pub fn and(machine: &mut Machine) -> (r: Result<(), ErrorType>)
    ensures
        (final(machine)@, r) == binary_effect(Primitive::And, old(machine)@),
{
    binary(machine, Primitive::And)
}

/// `or`: pushes the bitwise or of the two top values.
pub fn or(machine: &mut Machine) -> (r: Result<(), ErrorType>)
    ensures
        (final(machine)@, r) == binary_effect(Primitive::Or, old(machine)@),
{
    binary(machine, Primitive::Or)
}

/// `dup`
pub fn dup(machine: &mut Machine) -> (r: Result<(), ErrorType>)
    ensures
        (final(machine)@, r) == dup_effect(old(machine)@),
{
    let a = match machine.pop() {
        Some(n) => n,
        None => return Err(ErrorType::StackUnderflow),
    };
    machine.push(a);
    machine.push(a);
    assert(final(machine)@.stack =~= old(machine)@.stack.push(a));
    Ok(())
}

/// `drop`
pub fn drop(machine: &mut Machine) -> (r: Result<(), ErrorType>)
    ensures
        (final(machine)@, r) == drop_effect(old(machine)@),
{
    match machine.pop() {
        Some(_) => Ok(()),
        None => Err(ErrorType::StackUnderflow),
    }
}

/// `swap`
pub fn swap(machine: &mut Machine) -> (r: Result<(), ErrorType>)
    ensures
        (final(machine)@, r) == swap_effect(old(machine)@),
{
    let a = match machine.pop() {
        Some(n) => n,
        None => return Err(ErrorType::StackUnderflow),
    };
    let b = match machine.pop() {
        Some(n) => n,
        None => {
            assert(old(machine)@.stack.drop_last() =~= Seq::empty());
            return Err(ErrorType::StackUnderflow);
        },
    };
    machine.push(a);
    machine.push(b);
    let ghost s = old(machine)@.stack;
    assert(final(machine)@.stack =~= s.subrange(0, s.len() - 2) + seq![a, b]);
    Ok(())
}

/// `over`
pub fn over(machine: &mut Machine) -> (r: Result<(), ErrorType>)
    ensures
        (final(machine)@, r) == over_effect(old(machine)@),
{
    let a = match machine.pop() {
        Some(n) => n,
        None => return Err(ErrorType::StackUnderflow),
    };
    let b = match machine.pop() {
        Some(n) => n,
        None => {
            assert(old(machine)@.stack.drop_last() =~= Seq::empty());
            return Err(ErrorType::StackUnderflow);
        },
    };
    machine.push(b);
    machine.push(a);
    machine.push(b);
    let ghost s = old(machine)@.stack;
    assert(final(machine)@.stack =~= s.push(b));
    Ok(())
}

/// `rot`
pub fn rot(machine: &mut Machine) -> (r: Result<(), ErrorType>)
    ensures
        (final(machine)@, r) == rot_effect(old(machine)@),
{
    let ghost s = old(machine)@.stack;
    let a = match machine.pop() {
        Some(n) => n,
        None => return Err(ErrorType::StackUnderflow),
    };
    let b = match machine.pop() {
        Some(n) => n,
        None => {
            assert(s.drop_last() =~= Seq::empty());
            return Err(ErrorType::StackUnderflow);
        },
    };
    let c = match machine.pop() {
        Some(n) => n,
        None => {
            assert(s.drop_last().drop_last() =~= Seq::empty());
            return Err(ErrorType::StackUnderflow);
        },
    };
    machine.push(b);
    machine.push(a);
    machine.push(c);
    assert(final(machine)@.stack =~= s.subrange(0, s.len() - 3) + seq![b, a, c]);
    Ok(())
}

/// `invert`
pub fn invert(machine: &mut Machine) -> (r: Result<(), ErrorType>)
    ensures
        (final(machine)@, r) == invert_effect(old(machine)@),
{
    let a = match machine.pop() {
        Some(n) => n,
        None => return Err(ErrorType::StackUnderflow),
    };
    machine.push(!a);
    Ok(())
}

/// `clearstack`: empties the data stack.
pub fn clearstack(machine: &mut Machine) -> (r: Result<(), ErrorType>)
    ensures
        final(machine)@ == with_stack(old(machine)@, Seq::empty()),
        r == Ok::<(), ErrorType>(()),
{
    machine.stack.clear();
    Ok(())
}

/// `.`
pub fn dot(machine: &mut Machine) -> (r: Result<(), ErrorType>)
    ensures
        (final(machine)@, r) == dot_effect(old(machine)@),
{
    let a = match machine.pop() {
        Some(n) => n,
        None => return Err(ErrorType::StackUnderflow),
    };
    machine.output.push(Output::Number(a));
    assert(outputs(machine.output@) =~= old(machine)@.output.push(OutputView::Number(a)));
    Ok(())
}

/// `.s`
pub fn sdot(machine: &mut Machine) -> (r: Result<(), ErrorType>)
    ensures
        (final(machine)@, r) == sdot_effect(old(machine)@),
{
    let s = machine.stack.clone();
    machine.output.push(Output::Stack(s));
    assert(outputs(machine.output@) =~= old(machine)@.output.push(OutputView::Stack(old(machine)@.stack)));
    Ok(())
}

/// `."`
pub fn dot_quote(machine: &mut Machine) -> (r: Result<(), ErrorType>)
    ensures
        (final(machine)@, r) == dot_quote_effect(old(machine)@),
{
    if machine.pc >= machine.data.len() as u128 {
        return Ok(());
    }
    let ghost m0 = old(machine)@;
    let mut text = String::new();
    let mut closed = false;
    while machine.pc < machine.data.len() as u128 && !closed
        invariant
            machine@ == (MachineView { pc: machine.pc as int, ..m0 }),
            machine.pc <= machine.data.len() as u128,
            !closed ==> quote_text(m0.data, m0.pc) == (
                text@ + quote_text(m0.data, machine.pc as int).0,
                quote_text(m0.data, machine.pc as int).1,
            ),
            closed ==> quote_text(m0.data, m0.pc) == (text@, machine.pc as int),
        decreases machine.data.len() as int - machine.pc as int,
    {
        let ghost i = machine.pc as int;
        let ghost before = text@;
        proof {
            reveal_strlit("\n");
            reveal_strlit(" ");
            assert(m0.data[i] == machine.data@[i]@);
        }
        let (piece, closes) = match &machine.data[machine.pc as usize] {
            Value::Word(w) => if has_closing_quote(w) {
                (strip_quotes(w), true)
            } else {
                (w.clone(), false)
            },
            Value::Number(n) => (decimal_string(*n), false),
        };
        text.append(piece.as_str());
        if closes {
            text.append("\n");
        } else {
            text.append(" ");
        }
        machine.pc = machine.pc + 1;
        closed = closes;
        proof {
            let (t, j) = quote_text(m0.data, i + 1);
            if closes {
                assert(text@ =~= before + quote_text(m0.data, i).0);
            } else {
                assert(text@ + t =~= before + quote_text(m0.data, i).0);
            }
        }
    }
    let ghost t = text@;
    machine.output.push(Output::Text(text));
    assert(outputs(machine.output@) =~= m0.output.push(OutputView::Text(t)));
    Ok(())
}

/// `branch`
pub fn branch(machine: &mut Machine) -> (r: Result<(), ErrorType>)
    ensures
        (final(machine)@, r) == branch_effect(old(machine)@),
{
    if machine.pc >= machine.data.len() as u128 {
        return Err(ErrorType::BranchOutOfBounds);
    }
    let offset = match &machine.data[machine.pc as usize] {
        Value::Number(n) => *n,
        Value::Word(_) => return Err(ErrorType::InvalidOffset),
    };
    if offset < 0 {
        return Err(ErrorType::InvalidOffset);
    }
    machine.pc = machine.pc + offset as u128;
    Ok(())
}

/// `0branch`
pub fn branch0(machine: &mut Machine) -> (r: Result<(), ErrorType>)
    requires
        old(machine).pc < u128::MAX,
    ensures
        (final(machine)@, r) == branch0_effect(old(machine)@),
{
    let a = match machine.pop() {
        Some(n) => n,
        None => return Err(ErrorType::StackUnderflow),
    };
    if a != 0 {
        machine.pc = machine.pc + 1;
        return Ok(());
    }
    branch(machine)
}

/// `>r`
pub fn to_r(machine: &mut Machine) -> (r: Result<(), ErrorType>)
    ensures
        (final(machine)@, r) == to_r_effect(old(machine)@),
{
    let a = match machine.pop() {
        Some(n) => n,
        None => return Err(ErrorType::StackUnderflow),
    };
    machine.return_stack.push(a);
    Ok(())
}

/// `r>`
pub fn from_r(machine: &mut Machine) -> (r: Result<(), ErrorType>)
    ensures
        (final(machine)@, r) == from_r_effect(old(machine)@),
{
    let a = match machine.return_stack.pop() {
        Some(n) => n,
        None => return Err(ErrorType::StackUnderflow),
    };
    machine.push(a);
    Ok(())
}

/// `if`
pub fn if_(machine: &mut Machine) -> (r: Result<(), ErrorType>)
    ensures
        (final(machine)@, r) == if_effect(old(machine)@),
{
    let a = match machine.pop() {
        Some(n) => n,
        None => return Err(ErrorType::StackUnderflow),
    };
    if a != 0 {
        return Ok(());
    }
    let ghost m1 = machine@;
    let mut depth: usize = 0;
    while machine.pc < machine.data.len() as u128
        invariant
            machine@ == (MachineView { pc: machine.pc as int, ..m1 }),
            m1 == with_stack(old(machine)@, old(machine)@.stack.drop_last()),
            old(machine)@.stack.len() > 0,
            old(machine)@.stack.last() == 0,
            depth as int <= machine.pc as int,
            find_match(m1.data, machine.pc as int, depth as int, true) == find_match(
                m1.data,
                m1.pc,
                0,
                true,
            ),
        decreases machine.data.len() as int - machine.pc as int,
    {
        let ghost i = machine.pc as int;
        proof {
            lemma_keywords_distinct();
            assert(m1.data[i] == machine.data@[i]@);
        }
        let is_then = machine.data[machine.pc as usize].is_word("then");
        let is_else = machine.data[machine.pc as usize].is_word("else");
        let is_if = machine.data[machine.pc as usize].is_word("if");
        if is_then && depth == 0 {
            return Ok(());
        } else if is_else && depth == 0 {
            machine.control_flow_stack.push(0);
            return Ok(());
        } else if is_if {
            depth = depth + 1;
        } else if is_then {
            depth = depth - 1;
        }
        machine.pc = machine.pc + 1;
    }
    Err(ErrorType::UnbalancedControl)
}

/// `then`: a placeholder that does nothing.
pub fn then_(machine: &mut Machine) -> (r: Result<(), ErrorType>)
    ensures
        final(machine)@ == old(machine)@,
        r == Ok::<(), ErrorType>(()),
{
    Ok(())
}

/// `else`
pub fn else_(machine: &mut Machine) -> (r: Result<(), ErrorType>)
    ensures
        (final(machine)@, r) == else_effect(old(machine)@),
{
    let a = match machine.control_flow_stack.pop() {
        Some(n) => n,
        None => 1,
    };
    if a == 0 {
        return Ok(());
    }
    let ghost m1 = machine@;
    let mut depth: usize = 0;
    while machine.pc < machine.data.len() as u128
        invariant
            machine@ == (MachineView { pc: machine.pc as int, ..m1 }),
            m1 == (MachineView {
                control_flow_stack: if old(machine)@.control_flow_stack.len() == 0 {
                    old(machine)@.control_flow_stack
                } else {
                    old(machine)@.control_flow_stack.drop_last()
                },
                ..old(machine)@
            }),
            old(machine)@.control_flow_stack.len() == 0
                || old(machine)@.control_flow_stack.last() != 0,
            depth as int <= machine.pc as int,
            find_match(m1.data, machine.pc as int, depth as int, false) == find_match(
                m1.data,
                m1.pc,
                0,
                false,
            ),
        decreases machine.data.len() as int - machine.pc as int,
    {
        let ghost i = machine.pc as int;
        proof {
            lemma_keywords_distinct();
            assert(m1.data[i] == machine.data@[i]@);
        }
        let is_then = machine.data[machine.pc as usize].is_word("then");
        let is_if = machine.data[machine.pc as usize].is_word("if");
        if is_then && depth == 0 {
            return Ok(());
        } else if is_if {
            depth = depth + 1;
        } else if is_then {
            depth = depth - 1;
        }
        machine.pc = machine.pc + 1;
    }
    Err(ErrorType::UnbalancedControl)
}

} // verus!
