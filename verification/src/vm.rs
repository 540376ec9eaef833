//! The virtual machine: owns a global environment and a register stack and
//! executes a compiled unit's bytecode sequence linearly, dispatching to
//! native functions on `Call`. What the program prints is collected as output
//! lines; the surrounding program writes them to its output stream.

use vstd::prelude::*;
use vstd::string::StringExecFns;

use crate::bytecode::Bytecode;
use crate::lexer::Lexer;
use crate::lvalue::{sp_text, LValue, LValueView, NativeFn};
use crate::parser::{cview, load, sp_compile, CompileError, ParseProto};

verus! {

/// Why execution aborted.
#[derive(Clone, Copy, Debug, PartialEq, Eq, Structural)]
pub enum RuntimeError {
    /// `Call` named a register that does not hold a callable.
    InvalidCallTarget,
    /// `GetGlobal` named a constant that is not a string.
    InvalidGlobalKey,
}

/// A fault from either pipeline stage.
#[derive(Clone, Copy, Debug, PartialEq, Eq, Structural)]
pub enum LuaError {
    /// Compilation aborted; no unit was executed.
    Compile(CompileError),
    /// Execution aborted at a runtime fault.
    Runtime(RuntimeError),
}

/// The mathematical image of the machine state.
#[verifier::ext_equal]
pub struct VmView {
    pub globals: Seq<(Seq<char>, LValueView)>,
    pub stack: Seq<LValueView>,
    pub output: Seq<Seq<char>>,
}

pub open spec fn gview(s: Seq<(String, LValue)>) -> Seq<(Seq<char>, LValueView)> {
    s.map_values(|p: (String, LValue)| (p.0@, p.1@))
}

pub open spec fn oview(s: Seq<String>) -> Seq<Seq<char>> {
    s.map_values(|t: String| t@)
}

/// The value bound to `key` in the global environment, or `Nil` when the key
/// is absent.
pub open spec fn sp_lookup(gs: Seq<(Seq<char>, LValueView)>, key: Seq<char>) -> LValueView
    decreases gs.len(),
{
    if gs.len() == 0 {
        LValueView::Nil
    } else if gs[0].0 == key {
        gs[0].1
    } else {
        sp_lookup(gs.drop_first(), key)
    }
}

/// Writing a register: the stack grows to the index when needed, the gap
/// filled with `Nil`; it never shrinks.
pub open spec fn sp_set(stack: Seq<LValueView>, i: int, v: LValueView) -> Seq<LValueView> {
    if i < stack.len() {
        stack.update(i, v)
    } else {
        (stack + Seq::new((i + 1 - stack.len()) as nat, |_j: int| LValueView::Nil)).update(i, v)
    }
}

/// Reading a register: an unwritten slot reads as `Nil`.
pub open spec fn sp_get(stack: Seq<LValueView>, i: int) -> LValueView {
    if 0 <= i < stack.len() {
        stack[i]
    } else {
        LValueView::Nil
    }
}

/// What a native function does to the machine state: `print` reads its single
/// argument from register 1 and appends that value's debug text to the
/// output.
pub open spec fn sp_native(s: VmView, f: NativeFn) -> VmView {
    match f {
        NativeFn::Print => VmView { output: s.output.push(sp_text(sp_get(s.stack, 1))), ..s },
    }
}

/// One instruction dispatched against the machine state.
pub open spec fn sp_step(s: VmView, consts: Seq<LValueView>, code: Bytecode) -> Result<
    VmView,
    RuntimeError,
> {
    match code {
        Bytecode::GetGlobal(dst, name) => match consts[name as int] {
            LValueView::Str(key) => Ok(
                VmView { stack: sp_set(s.stack, dst as int, sp_lookup(s.globals, key)), ..s },
            ),
            _ => Err(RuntimeError::InvalidGlobalKey),
        },
        Bytecode::LoadConst(dst, c) => Ok(
            VmView { stack: sp_set(s.stack, dst as int, consts[c as int]), ..s },
        ),
        Bytecode::LoadNil(dst) => Ok(
            VmView { stack: sp_set(s.stack, dst as int, LValueView::Nil), ..s },
        ),
        Bytecode::LoadBool(dst, b) => Ok(
            VmView { stack: sp_set(s.stack, dst as int, LValueView::Boolean(b)), ..s },
        ),
        Bytecode::LoadInt(dst, i) => Ok(
            VmView { stack: sp_set(s.stack, dst as int, LValueView::Integer(i as int)), ..s },
        ),
        Bytecode::Call(func, _nargs) => match sp_get(s.stack, func as int) {
            LValueView::Function(f) => Ok(sp_native(s, f)),
            _ => Err(RuntimeError::InvalidCallTarget),
        },
    }
}

/// Straight-line execution of a whole sequence: the final state, and the
/// fault that stopped execution if one did. A faulting instruction leaves the
/// state as it was.
pub open spec fn sp_run(s: VmView, consts: Seq<LValueView>, codes: Seq<Bytecode>) -> (
    VmView,
    Option<RuntimeError>,
)
    decreases codes.len(),
{
    if codes.len() == 0 {
        (s, None)
    } else {
        match sp_step(s, consts, codes[0]) {
            Ok(s2) => sp_run(s2, consts, codes.drop_first()),
            Err(e) => (s, Some(e)),
        }
    }
}

/// The virtual machine state: a global environment mapping names to values
/// and a growable, index-addressed register stack, together with the output
/// lines printed so far.
pub struct ExeState {
    pub globals: Vec<(String, LValue)>,
    pub stack: Vec<LValue>,
    pub output: Vec<String>,
}

impl View for ExeState {
    type V = VmView;

    open spec fn view(&self) -> VmView {
        VmView {
            globals: gview(self.globals@),
            stack: cview(self.stack@),
            output: oview(self.output@),
        }
    }
}

impl ExeState {
    /// A fresh machine whose global environment holds exactly the supplied
    /// bindings: the embedding code controls which built-ins are available.
    pub fn with_globals(globals: Vec<(String, LValue)>) -> (r: ExeState)
        ensures
            r@.globals == gview(globals@),
            r@.stack == Seq::<LValueView>::empty(),
            r@.output == Seq::<Seq<char>>::empty(),
    {
        let r = ExeState { globals, stack: Vec::new(), output: Vec::new() };
        proof {
            assert(r@.stack =~= Seq::<LValueView>::empty());
            assert(r@.output =~= Seq::<Seq<char>>::empty());
        }
        r
    }

    /// A fresh machine: the global environment seeded with the sole built-in
    /// binding `print`, an empty register stack, and no output.
    pub fn new() -> (r: ExeState)
        ensures
            r@.globals == seq![("print"@, LValueView::Function(NativeFn::Print))],
            r@.stack == Seq::<LValueView>::empty(),
            r@.output == Seq::<Seq<char>>::empty(),
    {
        let mut globals: Vec<(String, LValue)> = Vec::new();
        globals.push((String::from_str("print"), LValue::Function(NativeFn::Print)));
        let r = ExeState::with_globals(globals);
        proof {
            assert(r@.globals =~= seq![("print"@, LValueView::Function(NativeFn::Print))]);
        }
        r
    }

    /// The value bound to a name in the global environment, or `Nil`.
    #[verifier::loop_isolation(false)]
    fn get_global(&self, key: &String) -> (r: LValue)
        ensures
            r@ == sp_lookup(self@.globals, key@),
    {
        let ghost gs = self@.globals;
        let n = self.globals.len();
        let mut i: usize = 0;
        proof {
            assert(gs.skip(0) =~= gs);
        }
        while i < n
            invariant
                n == self.globals@.len(),
                0 <= i <= n,
                sp_lookup(gs, key@) == sp_lookup(gs.skip(i as int), key@),
            decreases n - i,
        {
            proof {
                assert(gs.skip(i as int)[0] == gs[i as int]);
                assert(gs.skip(i as int).drop_first() =~= gs.skip(i as int + 1));
            }
            let found = self.globals[i].0 == *key;
            if found {
                return self.globals[i].1.duplicate();
            }
            i += 1;
        }
        proof {
            assert(gs.skip(n as int) =~= Seq::<(Seq<char>, LValueView)>::empty());
        }
        LValue::Nil
    }

    /// Writes `v` into register `dst`, extending the stack with `Nil`-filled
    /// slots when the index is beyond its current length; the stack never
    /// shrinks during a run.
    #[verifier::loop_isolation(false)]
    pub fn set_stack(&mut self, dst: u8, v: LValue)
        ensures
            final(self)@ == (VmView {
                stack: sp_set(old(self)@.stack, dst as int, v@),
                ..old(self)@
            }),
    {
        let index = dst as usize;
        let ghost olen = old(self).stack@.len() as int;
        while self.stack.len() <= index
            invariant
                self.globals@ == old(self).globals@,
                self.output@ == old(self).output@,
                olen <= self.stack@.len(),
                self.stack@.len() <= index + 1 || self.stack@.len() == olen,
                forall|i: int|
                    0 <= i < olen ==> #[trigger] self.stack@[i] == old(self).stack@[i],
                forall|i: int|
                    olen <= i < self.stack@.len() ==> #[trigger] self.stack@[i]@
                        == LValueView::Nil,
            decreases index + 1 - self.stack.len(),
        {
            self.stack.push(LValue::Nil);
        }
        self.stack[index] = v;
        proof {
            let os = cview(old(self).stack@);
            let target = sp_set(os, dst as int, v@);
            assert(cview(self.stack@).len() == target.len());
            assert forall|i: int| 0 <= i < target.len() implies cview(self.stack@)[i]
                == target[i] by {
                assert(cview(self.stack@)[i] == self.stack@[i]@);
                if i == index {
                } else if i < olen {
                    assert(self.stack@[i] == old(self).stack@[i]);
                } else {
                    assert(self.stack@[i]@ == LValueView::Nil);
                }
            }
            assert(cview(self.stack@) =~= target);
            assert(self@ =~= (VmView {
                stack: sp_set(old(self)@.stack, dst as int, v@),
                ..old(self)@
            }));
        }
    }

    /// Runs a compiled unit to completion or to its first fault, dispatching
    /// each instruction in sequence; the unit is read-only input.
    #[verifier::loop_isolation(false)]
    pub fn execute(&mut self, proto: &ParseProto) -> (r: Result<(), RuntimeError>)
        requires
            proto.wf(),
        ensures
            ({
                let (sv, err) = sp_run(old(self)@, cview(proto.constants@), proto.byte_codes@);
                final(self)@ == sv && match r {
                    Ok(()) => err is None,
                    Err(e) => err == Some(e),
                }
            }),
    {
        let ghost consts = cview(proto.constants@);
        let ghost codes = proto.byte_codes@;
        let n = proto.byte_codes.len();
        let mut pc: usize = 0;
        proof {
            assert(codes.skip(0) =~= codes);
        }
        while pc < n
            invariant
                n == codes.len(),
                0 <= pc <= n,
                sp_run(old(self)@, consts, codes) == sp_run(self@, consts, codes.skip(pc as int)),
            decreases n - pc,
        {
            proof {
                assert(codes.skip(pc as int)[0] == codes[pc as int]);
                assert(codes.skip(pc as int).drop_first() =~= codes.skip(pc as int + 1));
                assert(consts.len() == proto.constants@.len());
            }
            let code = proto.byte_codes[pc];
            match code {
                Bytecode::GetGlobal(dst, name) => {
                    let kv = &proto.constants[name as usize];
                    match kv {
                        LValue::String(key) => {
                            let v = self.get_global(key);
                            self.set_stack(dst, v);
                        },
                        _ => {
                            return Err(RuntimeError::InvalidGlobalKey);
                        },
                    }
                },
                Bytecode::LoadConst(dst, cidx) => {
                    let v = proto.constants[cidx as usize].duplicate();
                    self.set_stack(dst, v);
                },
                Bytecode::LoadNil(dst) => {
                    self.set_stack(dst, LValue::Nil);
                },
                Bytecode::LoadBool(dst, b) => {
                    self.set_stack(dst, LValue::Boolean(b));
                },
                Bytecode::LoadInt(dst, i) => {
                    self.set_stack(dst, LValue::Integer(i as i64));
                },
                Bytecode::Call(func, _nargs) => {
                    let fidx = func as usize;
                    let nf = if fidx < self.stack.len() {
                        match &self.stack[fidx] {
                            LValue::Function(f) => Some(*f),
                            _ => None,
                        }
                    } else {
                        None
                    };
                    match nf {
                        Some(NativeFn::Print) => {
                            lib_print(self);
                        },
                        None => {
                            return Err(RuntimeError::InvalidCallTarget);
                        },
                    }
                },
            }
            pc += 1;
        }
        proof {
            assert(codes.skip(n as int) =~= Seq::<Bytecode>::empty());
        }
        Ok(())
    }
}

/// The `print` built-in: supports one argument, read from register 1 (an
/// unwritten register reads as `Nil`); appends the value's debug text to the
/// output and returns status code zero.
pub fn lib_print(state: &mut ExeState) -> (r: i32)
    ensures
        final(state)@ == sp_native(old(state)@, NativeFn::Print),
        r == 0,
{
    let v = if state.stack.len() > 1 {
        state.stack[1].duplicate()
    } else {
        LValue::Nil
    };
    let text = v.to_text();
    state.output.push(text);
    proof {
        assert(state@ =~= sp_native(old(state)@, NativeFn::Print));
    }
    0
}

/// The whole pipeline at the specification level: the output a program text
/// produces on a fresh machine, and the fault that stopped it, if one did. On
/// a compilation fault no instruction is executed and the output is empty.
pub open spec fn sp_run_source(src: Seq<char>) -> (Seq<Seq<char>>, Option<LuaError>) {
    match sp_compile(src, 0, Seq::empty(), Seq::empty()) {
        Err(e) => (Seq::empty(), Some(LuaError::Compile(e))),
        Ok((consts, codes)) => {
            let s0 = VmView {
                globals: seq![("print"@, LValueView::Function(NativeFn::Print))],
                stack: Seq::empty(),
                output: Seq::empty(),
            };
            let (s1, err) = sp_run(s0, consts, codes);
            (
                s1.output,
                match err {
                    Some(e) => Some(LuaError::Runtime(e)),
                    None => None,
                },
            )
        },
    }
}

/// Lexes and compiles `src` and, when compilation succeeds, executes the unit
/// on a fresh machine. Returns the output lines the program printed (the
/// partial output, when execution faulted) and the fault, if any.
pub fn run_source(src: &str) -> (r: (Vec<String>, Option<LuaError>))
    ensures
        ({
            let (out, err) = sp_run_source(src@);
            oview(r.0@) == out && r.1 == err
        }),
{
    let lex = Lexer::new(src);
    match load(lex) {
        Err(e) => {
            let empty: Vec<String> = Vec::new();
            proof {
                assert(oview(empty@) =~= Seq::<Seq<char>>::empty());
            }
            (empty, Some(LuaError::Compile(e)))
        },
        Ok(proto) => {
            let mut state = ExeState::new();
            let ghost s0 = VmView {
                globals: seq![("print"@, LValueView::Function(NativeFn::Print))],
                stack: Seq::empty(),
                output: Seq::empty(),
            };
            proof {
                assert(state@ =~= s0);
            }
            let res = state.execute(&proto);
            let ExeState { output, .. } = state;
            match res {
                Ok(()) => (output, None),
                Err(e) => (output, Some(LuaError::Runtime(e))),
            }
        },
    }
}

} // verus!
