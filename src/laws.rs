//! Laws of the interpreter, stated over the specification functions that the
//! executable code is proved against.
use vstd::prelude::*;
use crate::compiler::{after, block, finish_compile_effect, offset_max, translate, undefined_word, word_name};
use crate::dictionary::{FunctionView, Primitive};
use crate::instructions::{is_binary, rot_effect, swap_effect};
use crate::machine::{MachineView, lemma_primitive_progress, primitive_effect, remaining, run, with_stack};
use crate::value::{ErrorType, ValueView, is_kw, lemma_keywords_distinct};

verus! {

/// How many data-stack values primitive `p` needs.
pub open spec fn arity(p: Primitive) -> nat {
    if is_binary(p) {
        2
    } else {
        match p {
            Primitive::Dup | Primitive::Drop | Primitive::Invert | Primitive::Dot | Primitive::ToR
            | Primitive::Branch0 | Primitive::If => 1,
            Primitive::Swap | Primitive::Over => 2,
            Primitive::Rot => 3,
            _ => 0,
        }
    }
}

/// A primitive that needs `n` data-stack values, run on fewer, fails with
/// `StackUnderflow`. It pops greedily and does not push back what it popped,
/// so every value it found is gone; nothing else changes.
pub proof fn lemma_underflow(p: Primitive, m: MachineView)
    requires
        m.stack.len() < arity(p),
    ensures
        primitive_effect(p, m).1 == Err::<(), ErrorType>(ErrorType::StackUnderflow),
        primitive_effect(p, m).0 == with_stack(m, Seq::empty()),
{
    if m.stack.len() == 0 {
        assert(m.stack =~= Seq::empty());
        assert(with_stack(m, Seq::empty()) == m);
    }
}

/// `r>` on an empty return stack fails with `StackUnderflow` and changes nothing.
pub proof fn lemma_return_stack_underflow(m: MachineView)
    requires
        m.return_stack.len() == 0,
    ensures
        primitive_effect(Primitive::FromR, m) == (m, Err::<(), ErrorType>(ErrorType::StackUnderflow)),
{
}

/// `swap` twice leaves the stack as it was.
pub proof fn lemma_swap_twice(m: MachineView)
    requires
        m.stack.len() >= 2,
    ensures
        swap_effect(swap_effect(m).0).0 == m,
        swap_effect(swap_effect(m).0).1 is Ok,
{
    let s = m.stack;
    let n = s.len();
    let t = swap_effect(m).0.stack;
    assert(t.subrange(0, n - 2) =~= s.subrange(0, n - 2));
    assert(t.subrange(0, n - 2) + seq![t[n - 1], t[n - 2]] =~= s);
}

/// `rot` three times leaves the stack as it was.
pub proof fn lemma_rot_thrice(m: MachineView)
    requires
        m.stack.len() >= 3,
    ensures
        rot_effect(rot_effect(rot_effect(m).0).0).0 == m,
        rot_effect(rot_effect(rot_effect(m).0).0).1 is Ok,
{
    let s = m.stack;
    let n = s.len();
    let m1 = rot_effect(m).0;
    let m2 = rot_effect(m1).0;
    assert(m1.stack.subrange(0, n - 3) =~= s.subrange(0, n - 3));
    assert(m2.stack.subrange(0, n - 3) =~= s.subrange(0, n - 3));
    assert(m2.stack.subrange(0, n - 3) + seq![m2.stack[n - 2], m2.stack[n - 1], m2.stack[n - 3]]
        =~= s);
}

/// A definition whose body uses a word the dictionary lacks fails with
/// `CompilationError` and leaves the dictionary as it was, so a name that
/// was undefined stays undefined.
pub proof fn lemma_undefined_reference_rejected(m: MachineView)
    requires
        m.compile_mode,
        m.compile_buffer.len() > 0,
        undefined_word(m.compile_buffer.drop_first(), m.dictionary, 0, false) is Some,
    ensures
        finish_compile_effect(m).1 == Err::<(), ErrorType>(ErrorType::CompilationError),
        finish_compile_effect(m).0.dictionary == m.dictionary,
        !finish_compile_effect(m).0.compile_mode,
{
}

/// Executing a word that the dictionary lacks fails with `WordNotFound`.
pub proof fn lemma_unknown_word_fails(m: MachineView, w: Seq<char>, depth: nat)
    requires
        !m.compile_mode,
        !m.dictionary.contains_key(w),
        0 <= m.pc < m.data.len(),
        m.data[m.pc] == ValueView::Word(w),
    ensures
        run(m, depth).1 == Err::<(), ErrorType>(ErrorType::WordNotFound),
{
}

/// A definition that succeeds maps its name to its compiled body, replacing
/// any earlier definition, and leaves every other name as it was. It does
/// not touch the instruction stream being executed or its pointer, so a
/// call already in progress goes on running the body it started with.
pub proof fn lemma_redefinition(m: MachineView)
    requires
        finish_compile_effect(m).1 is Ok,
    ensures
        translate(m.compile_buffer.drop_first()) is Ok,
        finish_compile_effect(m).0.dictionary == m.dictionary.insert(
            word_name(m.compile_buffer[0]),
            FunctionView::UserDefined(translate(m.compile_buffer.drop_first())->Ok_0),
        ),
        finish_compile_effect(m).0.data == m.data,
        finish_compile_effect(m).0.pc == m.pc,
{
}

/// Whether `t` is neither a control word nor the word that opens a string
/// literal.
pub open spec fn plain_token(t: ValueView) -> bool {
    !is_kw(t, "if"@) && !is_kw(t, "then"@) && !is_kw(t, "else"@) && !is_kw(t, ".\""@)
}

/// Whether every token of `s` is plain.
pub open spec fn is_plain(s: Seq<ValueView>) -> bool {
    forall|k: int| 0 <= k < s.len() ==> #[trigger] plain_token(s[k])
}

/// The code `0branch n`.
pub open spec fn branch0_to(n: nat) -> Seq<ValueView> {
    seq![ValueView::Word("0branch"@), ValueView::Number(n as i32)]
}

/// The code `branch n`.
pub open spec fn branch_to(n: nat) -> Seq<ValueView> {
    seq![ValueView::Word("branch"@), ValueView::Number(n as i32)]
}

proof fn lemma_block_plain_run(s: Seq<ValueView>, i: int, j: int)
    requires
        0 <= i <= j <= s.len(),
        forall|k: int| i <= k < j ==> #[trigger] plain_token(s[k]),
    ensures
        block(s, i, false) == after(s.subrange(i, j), block(s, j, false)),
    decreases j - i,
{
    if i < j {
        lemma_block_plain_run(s, i + 1, j);
        assert(plain_token(s[i]));
        assert(s.subrange(i, j) =~= seq![s[i]] + s.subrange(i + 1, j));
        match block(s, j, false) {
            Ok((c, k)) => {
                assert(seq![s[i]] + (s.subrange(i + 1, j) + c) =~= s.subrange(i, j) + c);
            },
            Err(_) => {},
        }
    } else {
        match block(s, j, false) {
            Ok((c, k)) => {
                assert(s.subrange(i, j) + c =~= c);
            },
            Err(_) => {},
        }
    }
}

proof fn lemma_block_stops(s: Seq<ValueView>, j: int)
    requires
        0 <= j <= s.len(),
        j == s.len() || is_kw(s[j], "then"@) || is_kw(s[j], "else"@),
    ensures
        block(s, j, false) == Ok::<(Seq<ValueView>, int), ErrorType>((Seq::empty(), j)),
{
}

proof fn lemma_plain_block(s: Seq<ValueView>, i: int, j: int)
    requires
        0 <= i <= j <= s.len(),
        forall|k: int| i <= k < j ==> #[trigger] plain_token(s[k]),
        j == s.len() || is_kw(s[j], "then"@) || is_kw(s[j], "else"@),
    ensures
        block(s, i, false) == Ok::<(Seq<ValueView>, int), ErrorType>((s.subrange(i, j), j)),
{
    lemma_block_plain_run(s, i, j);
    lemma_block_stops(s, j);
    assert(s.subrange(i, j) + Seq::<ValueView>::empty() =~= s.subrange(i, j));
}

/// An `if` at `p` whose block up to the `then` at `q` is plain compiles to
/// `0branch` with the distance to the token after that `then`.
proof fn lemma_if_then_step(s: Seq<ValueView>, p: int, q: int)
    requires
        0 <= p < q < s.len(),
        is_kw(s[p], "if"@),
        is_kw(s[q], "then"@),
        forall|k: int| p < k < q ==> #[trigger] plain_token(s[k]),
        q - p <= offset_max(),
    ensures
        block(s, p, false) == after(branch0_to((q - p) as nat) + s.subrange(p + 1, q), block(s, q + 1, false)),
{
    lemma_keywords_distinct();
    lemma_plain_block(s, p + 1, q);
    match block(s, q + 1, false) {
        Ok((c, k)) => {
            assert(branch0_to((q - p) as nat) + s.subrange(p + 1, q) + c =~= branch0_to((q - p) as nat) + (
            s.subrange(p + 1, q) + c));
        },
        Err(_) => {},
    }
}

/// Two `if ... then` pairs in sequence each branch to the token after their
/// own `then`.
pub proof fn lemma_sequential_ifs(
    a: Seq<ValueView>,
    b: Seq<ValueView>,
    c: Seq<ValueView>,
    d: Seq<ValueView>,
    e: Seq<ValueView>,
)
    requires
        is_plain(a),
        is_plain(b),
        is_plain(c),
        is_plain(d),
        is_plain(e),
        b.len() + 1 <= offset_max(),
        d.len() + 1 <= offset_max(),
    ensures
        translate(
            a + seq![ValueView::Word("if"@)] + b + seq![ValueView::Word("then"@)] + c + seq![
                ValueView::Word("if"@),
            ] + d + seq![ValueView::Word("then"@)] + e,
        ) == Ok::<Seq<ValueView>, ErrorType>(
            a + branch0_to(b.len() + 1) + b + c + branch0_to(d.len() + 1) + d + e,
        ),
{
    lemma_keywords_distinct();
    let w_if = ValueView::Word("if"@);
    let w_then = ValueView::Word("then"@);
    let s = a + seq![w_if] + b + seq![w_then] + c + seq![w_if] + d + seq![w_then] + e;
    let at_if1 = a.len() as int;
    let at_then1 = at_if1 + 1 + b.len() as int;
    let at_if2 = at_then1 + 1 + c.len() as int;
    let at_then2 = at_if2 + 1 + d.len() as int;
    let n = s.len() as int;
    assert(s.subrange(0, at_if1) =~= a);
    assert(s.subrange(at_if1 + 1, at_then1) =~= b);
    assert(s.subrange(at_then1 + 1, at_if2) =~= c);
    assert(s.subrange(at_if2 + 1, at_then2) =~= d);
    assert(s.subrange(at_then2 + 1, n) =~= e);
    assert(s[at_if1] == w_if && s[at_then1] == w_then && s[at_if2] == w_if && s[at_then2] == w_then);
    assert forall|k: int| 0 <= k < at_if1 implies #[trigger] plain_token(s[k]) by {
        assert(s[k] == a[k]);
    }
    assert forall|k: int| at_if1 < k < at_then1 implies #[trigger] plain_token(s[k]) by {
        assert(s[k] == b[k - at_if1 - 1]);
    }
    assert forall|k: int| at_then1 < k < at_if2 implies #[trigger] plain_token(s[k]) by {
        assert(s[k] == c[k - at_then1 - 1]);
    }
    assert forall|k: int| at_if2 < k < at_then2 implies #[trigger] plain_token(s[k]) by {
        assert(s[k] == d[k - at_if2 - 1]);
    }
    assert forall|k: int| at_then2 < k < n implies #[trigger] plain_token(s[k]) by {
        assert(s[k] == e[k - at_then2 - 1]);
    }
    lemma_block_plain_run(s, 0, at_if1);
    lemma_if_then_step(s, at_if1, at_then1);
    lemma_block_plain_run(s, at_then1 + 1, at_if2);
    lemma_if_then_step(s, at_if2, at_then2);
    lemma_plain_block(s, at_then2 + 1, n);
    assert(a + (branch0_to(b.len() + 1) + b + (c + (branch0_to(d.len() + 1) + d + e))) =~= a
        + branch0_to(b.len() + 1) + b + c + branch0_to(d.len() + 1) + d + e);
}

/// An `if ... then` pair nested inside another branches to the token after
/// its own `then`, and the outer `if` to the token after the outer `then`.
pub proof fn lemma_nested_ifs(a: Seq<ValueView>, b: Seq<ValueView>, c: Seq<ValueView>)
    requires
        is_plain(a),
        is_plain(b),
        is_plain(c),
        a.len() + b.len() + c.len() + 3 <= offset_max(),
    ensures
        translate(
            seq![ValueView::Word("if"@)] + a + seq![ValueView::Word("if"@)] + b + seq![
                ValueView::Word("then"@),
            ] + c + seq![ValueView::Word("then"@)],
        ) == Ok::<Seq<ValueView>, ErrorType>(
            branch0_to(a.len() + b.len() + c.len() + 3) + a + branch0_to(b.len() + 1) + b + c,
        ),
{
    lemma_keywords_distinct();
    let w_if = ValueView::Word("if"@);
    let w_then = ValueView::Word("then"@);
    let s = seq![w_if] + a + seq![w_if] + b + seq![w_then] + c + seq![w_then];
    let p = 1 + a.len() as int;
    let q = p + 1 + b.len() as int;
    let r = q + 1 + c.len() as int;
    let n = s.len() as int;
    assert(s.subrange(1, p) =~= a);
    assert(s.subrange(p + 1, q) =~= b);
    assert(s.subrange(q + 1, r) =~= c);
    assert(s[0] == w_if && s[p] == w_if && s[q] == w_then && s[r] == w_then);
    assert forall|k: int| 1 <= k < p implies #[trigger] plain_token(s[k]) by {
        assert(s[k] == a[k - 1]);
    }
    assert forall|k: int| p < k < q implies #[trigger] plain_token(s[k]) by {
        assert(s[k] == b[k - p - 1]);
    }
    assert forall|k: int| q < k < r implies #[trigger] plain_token(s[k]) by {
        assert(s[k] == c[k - q - 1]);
    }
    lemma_block_plain_run(s, 1, p);
    lemma_if_then_step(s, p, q);
    lemma_plain_block(s, q + 1, r);
    let inner = a + (branch0_to(b.len() + 1) + b + c);
    assert(block(s, 1, false) == Ok::<(Seq<ValueView>, int), ErrorType>((inner, r)));
    lemma_block_stops(s, n);
    assert(inner.len() == a.len() + b.len() + c.len() + 2);
    assert(branch0_to(inner.len() + 1) + inner + Seq::<ValueView>::empty() =~= branch0_to(
        a.len() + b.len() + c.len() + 3,
    ) + a + branch0_to(b.len() + 1) + b + c);
}

/// In `if B else C then`, the `0branch` skips to the first token of `C` and
/// the `branch` after `B` skips to the token after `then`.
pub proof fn lemma_if_else_then(a: Seq<ValueView>, b: Seq<ValueView>, c: Seq<ValueView>, d: Seq<ValueView>)
    requires
        is_plain(a),
        is_plain(b),
        is_plain(c),
        is_plain(d),
        b.len() + 3 <= offset_max(),
        c.len() + 1 <= offset_max(),
    ensures
        translate(
            a + seq![ValueView::Word("if"@)] + b + seq![ValueView::Word("else"@)] + c + seq![
                ValueView::Word("then"@),
            ] + d,
        ) == Ok::<Seq<ValueView>, ErrorType>(
            a + branch0_to(b.len() + 3) + b + branch_to(c.len() + 1) + c + d,
        ),
{
    lemma_keywords_distinct();
    let w_if = ValueView::Word("if"@);
    let w_else = ValueView::Word("else"@);
    let w_then = ValueView::Word("then"@);
    let s = a + seq![w_if] + b + seq![w_else] + c + seq![w_then] + d;
    let p = a.len() as int;
    let j = p + 1 + b.len() as int;
    let k = j + 1 + c.len() as int;
    let n = s.len() as int;
    assert(s.subrange(0, p) =~= a);
    assert(s.subrange(p + 1, j) =~= b);
    assert(s.subrange(j + 1, k) =~= c);
    assert(s.subrange(k + 1, n) =~= d);
    assert(s[p] == w_if && s[j] == w_else && s[k] == w_then);
    assert forall|i: int| 0 <= i < p implies #[trigger] plain_token(s[i]) by {
        assert(s[i] == a[i]);
    }
    assert forall|i: int| p < i < j implies #[trigger] plain_token(s[i]) by {
        assert(s[i] == b[i - p - 1]);
    }
    assert forall|i: int| j < i < k implies #[trigger] plain_token(s[i]) by {
        assert(s[i] == c[i - j - 1]);
    }
    assert forall|i: int| k < i < n implies #[trigger] plain_token(s[i]) by {
        assert(s[i] == d[i - k - 1]);
    }
    lemma_block_plain_run(s, 0, p);
    lemma_plain_block(s, p + 1, j);
    lemma_plain_block(s, j + 1, k);
    lemma_plain_block(s, k + 1, n);
    assert(block(s, p, false) == Ok::<(Seq<ValueView>, int), ErrorType>(
        (branch0_to(b.len() + 3) + b + branch_to(c.len() + 1) + c + d, n),
    ));
    assert(a + (branch0_to(b.len() + 3) + b + branch_to(c.len() + 1) + c + d) =~= a + branch0_to(
        b.len() + 3,
    ) + b + branch_to(c.len() + 1) + c + d);
}

/// In compile mode every token up to the next `;` is appended to the
/// compile buffer, in order, and nothing else changes.
pub proof fn lemma_compile_mode_buffers(m: MachineView, j: int, depth: nat)
    requires
        m.compile_mode,
        0 <= m.pc <= j <= m.data.len(),
        forall|k: int| m.pc <= k < j ==> !is_kw(#[trigger] m.data[k], ";"@),
    ensures
        run(m, depth) == run(
            MachineView {
                compile_buffer: m.compile_buffer + m.data.subrange(m.pc, j),
                pc: j,
                ..m
            },
            depth,
        ),
    decreases j - m.pc,
{
    if m.pc < j {
        let m1 = MachineView {
            compile_buffer: m.compile_buffer.push(m.data[m.pc]),
            pc: m.pc + 1,
            ..m
        };
        lemma_compile_mode_buffers(m1, j, depth);
        assert(m.compile_buffer.push(m.data[m.pc]) + m.data.subrange(m.pc + 1, j)
            =~= m.compile_buffer + m.data.subrange(m.pc, j));
    } else {
        assert(m.compile_buffer + m.data.subrange(m.pc, j) =~= m.compile_buffer);
    }
}

/// Running the line `: name body ;` from its start, where neither `name`
/// nor `body` holds `;`, enters compile mode, buffers `name` and `body`, and
/// ends exactly as `;` does on that buffer.
pub proof fn lemma_definition_line(
    m: MachineView,
    name: ValueView,
    body: Seq<ValueView>,
    depth: nat,
)
    requires
        !m.compile_mode,
        m.compile_buffer.len() == 0,
        m.pc == 0,
        m.data == seq![ValueView::Word(":"@), name] + body + seq![ValueView::Word(";"@)],
        !is_kw(name, ";"@),
        forall|k: int| 0 <= k < body.len() ==> !is_kw(#[trigger] body[k], ";"@),
        m.dictionary.contains_key(":"@),
        m.dictionary[":"@] == FunctionView::Builtin(Primitive::Compile),
        m.dictionary.contains_key(";"@),
        m.dictionary[";"@] == FunctionView::Builtin(Primitive::FinishCompile),
    ensures
        run(m, depth) == finish_compile_effect(
            MachineView {
                compile_mode: true,
                compile_buffer: seq![name] + body,
                pc: m.data.len() as int,
                ..m
            },
        ),
{
    let n = m.data.len() as int;
    let m2 = MachineView { compile_mode: true, pc: 1, ..m };
    assert(m.data[0] == ValueView::Word(":"@));
    assert(run(m, depth) == run(m2, depth));
    assert forall|k: int| 1 <= k < n - 1 implies !is_kw(#[trigger] m.data[k], ";"@) by {
        if k > 1 {
            assert(m.data[k] == body[k - 2]);
        }
    }
    lemma_compile_mode_buffers(m2, n - 1, depth);
    assert(m.compile_buffer + m.data.subrange(1, n - 1) =~= seq![name] + body);
    let m3 = MachineView { compile_mode: true, compile_buffer: seq![name] + body, pc: n - 1, ..m };
    assert(m.data[n - 1] == ValueView::Word(";"@));
    let m4 = MachineView { pc: n, ..m3 };
    assert(run(m3, depth) == (if finish_compile_effect(m4).1 is Err {
        finish_compile_effect(m4)
    } else {
        run(finish_compile_effect(m4).0, depth)
    }));
}

/// Running the line `: name body ;`, where `body` uses a word the
/// dictionary lacks, fails with `CompilationError` and leaves the dictionary
/// as it was.
pub proof fn lemma_undefined_reference_line(
    m: MachineView,
    name: ValueView,
    body: Seq<ValueView>,
    depth: nat,
)
    requires
        !m.compile_mode,
        m.compile_buffer.len() == 0,
        m.pc == 0,
        m.data == seq![ValueView::Word(":"@), name] + body + seq![ValueView::Word(";"@)],
        !is_kw(name, ";"@),
        forall|k: int| 0 <= k < body.len() ==> !is_kw(#[trigger] body[k], ";"@),
        m.dictionary.contains_key(":"@),
        m.dictionary[":"@] == FunctionView::Builtin(Primitive::Compile),
        m.dictionary.contains_key(";"@),
        m.dictionary[";"@] == FunctionView::Builtin(Primitive::FinishCompile),
        undefined_word(body, m.dictionary, 0, false) is Some,
    ensures
        run(m, depth).1 == Err::<(), ErrorType>(ErrorType::CompilationError),
        run(m, depth).0.dictionary == m.dictionary,
{
    lemma_definition_line(m, name, body, depth);
    assert((seq![name] + body).drop_first() =~= body);
}

/// Executing `0branch n` pops the flag; on zero execution goes on `n`
/// tokens after the offset, on any other flag at the token after the offset.
pub proof fn lemma_branch0_runs(m: MachineView, n: i32, depth: nat)
    requires
        !m.compile_mode,
        0 <= m.pc,
        m.pc + 1 < m.data.len(),
        m.data[m.pc] == ValueView::Word("0branch"@),
        m.data[m.pc + 1] == ValueView::Number(n),
        0 <= n,
        m.dictionary.contains_key("0branch"@),
        m.dictionary["0branch"@] == FunctionView::Builtin(Primitive::Branch0),
        m.stack.len() > 0,
    ensures
        m.stack.last() == 0 ==> run(m, depth) == run(
            MachineView { stack: m.stack.drop_last(), pc: m.pc + 1 + n, ..m },
            depth,
        ),
        m.stack.last() != 0 ==> run(m, depth) == run(
            MachineView { stack: m.stack.drop_last(), pc: m.pc + 2, ..m },
            depth,
        ),
{
}

/// A run that succeeds ends on the stream it started with: neither a
/// primitive, nor a nested call, nor a redefinition made while it runs
/// replaces the tokens being executed.
pub proof fn lemma_run_keeps_stream(m: MachineView, depth: nat)
    requires
        0 <= m.pc,
    ensures
        run(m, depth).1 is Ok ==> run(m, depth).0.data == m.data,
    decreases depth, remaining(m),
{
    if m.pc < m.data.len() {
        let t = m.data[m.pc];
        let m1 = MachineView { pc: m.pc + 1, ..m };
        if m.compile_mode && !is_kw(t, ";"@) {
            lemma_run_keeps_stream(
                MachineView { compile_buffer: m.compile_buffer.push(t), ..m1 },
                depth,
            );
        } else {
            match t {
                ValueView::Number(n) => {
                    lemma_run_keeps_stream(with_stack(m1, m.stack.push(n)), depth);
                },
                ValueView::Word(w) => {
                    if m.dictionary.contains_key(w) {
                        match m.dictionary[w] {
                            FunctionView::Builtin(p) => {
                                lemma_primitive_progress(p, m1);
                                let (m2, r) = primitive_effect(p, m1);
                                if r is Ok {
                                    lemma_run_keeps_stream(m2, depth);
                                }
                            },
                            FunctionView::UserDefined(body) => {
                                if depth > 0 {
                                    let (m2, r) = run(
                                        MachineView { pc: 0, data: body, ..m1 },
                                        (depth - 1) as nat,
                                    );
                                    if r is Ok {
                                        lemma_run_keeps_stream(
                                            MachineView { pc: m1.pc, data: m.data, ..m2 },
                                            depth,
                                        );
                                    }
                                }
                            },
                            FunctionView::Action => {},
                        }
                    }
                },
            }
        }
    }
}

/// A call of a user-defined word runs a copy of the body that the
/// dictionary holds when the call is dispatched: the call's run starts on
/// that body and, when it succeeds, ends on it, even if the word is
/// redefined meanwhile. A failure ends the caller's run too; a success
/// resumes the caller's own stream just after the call, so only calls
/// dispatched after a redefinition run the new body.
pub proof fn lemma_call_runs_copy_of_body(m: MachineView, depth: nat, w: Seq<char>)
    requires
        !m.compile_mode,
        0 <= m.pc < m.data.len(),
        m.data[m.pc] == ValueView::Word(w),
        m.dictionary.contains_key(w),
        m.dictionary[w] is UserDefined,
        depth > 0,
    ensures
        ({
            let body = m.dictionary[w]->UserDefined_0;
            let (m2, r) = run(MachineView { pc: 0, data: body, ..m }, (depth - 1) as nat);
            &&& run(m, depth) == (if r is Err {
                (m2, r)
            } else {
                run(MachineView { pc: m.pc + 1, data: m.data, ..m2 }, depth)
            })
            &&& (r is Ok ==> m2.data == body)
        }),
{
    let body = m.dictionary[w]->UserDefined_0;
    lemma_run_keeps_stream(MachineView { pc: 0, data: body, ..m }, (depth - 1) as nat);
}

} // verus!
