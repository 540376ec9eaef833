//! The syntax analysis module: a single-pass compiler that drives the lexer
//! and emits a compiled unit directly, with no intermediate tree. Any token
//! sequence outside the supported statement grammar aborts the whole
//! compilation; no partial unit is produced.

use vstd::prelude::*;

use crate::bytecode::Bytecode;
use crate::lexer::{lemma_sp_next_progress, sp_next, Lexer, Token, TokenView};
use crate::lvalue::{LValue, LValueView};

verus! {

/// Why a compilation aborted.
#[derive(Clone, Copy, Debug, PartialEq, Eq, Structural)]
pub enum CompileError {
    /// A statement begins with a token that is neither a name nor the end of
    /// the stream.
    UnexpectedToken,
    /// The parenthesized argument is not a literal.
    InvalidArgument,
    /// The closing parenthesis is missing.
    ExpectedParRight,
    /// After the called name there is neither `(` nor a bare string literal.
    ExpectedString,
    /// The constant pool outgrew the index range an operand can hold.
    TooManyConstants,
}

/// The view of a constant pool.
pub open spec fn cview(s: Seq<LValue>) -> Seq<LValueView> {
    s.map_values(|v: LValue| v@)
}

/// The first index of the pool holding `v`, or -1 when `v` is absent.
pub open spec fn sp_find_const(consts: Seq<LValueView>, v: LValueView) -> int
    decreases consts.len(),
{
    if consts.len() == 0 {
        -1
    } else if consts[0] == v {
        0
    } else {
        let r = sp_find_const(consts.drop_first(), v);
        if r < 0 {
            -1
        } else {
            r + 1
        }
    }
}

/// Deduplicating insertion: the pool after the insertion and the index of the
/// value within it.
pub open spec fn sp_add_const(consts: Seq<LValueView>, v: LValueView) -> (Seq<LValueView>, int) {
    let i = sp_find_const(consts, v);
    if i >= 0 {
        (consts, i)
    } else {
        (consts.push(v), consts.len() as int)
    }
}

pub proof fn lemma_find_const_props(consts: Seq<LValueView>, v: LValueView)
    ensures
        ({
            let r = sp_find_const(consts, v);
            &&& r == -1 ==> forall|j: int| 0 <= j < consts.len() ==> #[trigger] consts[j] != v
            &&& r >= 0 ==> 0 <= r < consts.len() && consts[r] == v && forall|j: int|
                0 <= j < r ==> #[trigger] consts[j] != v
        }),
    decreases consts.len(),
{
    let r = sp_find_const(consts, v);
    if consts.len() != 0 && consts[0] != v {
        lemma_find_const_props(consts.drop_first(), v);
        let rr = sp_find_const(consts.drop_first(), v);
        if rr == -1 {
            assert forall|j: int| 0 <= j < consts.len() implies #[trigger] consts[j] != v by {
                if j > 0 {
                    assert(consts.drop_first()[j - 1] == consts[j]);
                }
            }
        } else {
            assert(consts.drop_first()[rr] == consts[rr + 1]);
            assert forall|j: int| 0 <= j < r implies #[trigger] consts[j] != v by {
                if j > 0 {
                    assert(consts.drop_first()[j - 1] == consts[j]);
                }
            }
        }
    }
}

pub proof fn lemma_find_const_at(consts: Seq<LValueView>, v: LValueView, i: int)
    requires
        0 <= i <= consts.len(),
        forall|j: int| 0 <= j < i ==> #[trigger] consts[j] != v,
        i < consts.len() ==> consts[i] == v,
    ensures
        sp_find_const(consts, v) == if i < consts.len() {
            i
        } else {
            -1
        },
    decreases consts.len(),
{
    if consts.len() == 0 {
    } else if consts[0] == v {
        assert(i == 0);
    } else {
        assert(i >= 1);
        assert(forall|j: int|
            0 <= j < consts.drop_first().len() ==> #[trigger] consts.drop_first()[j] == consts[j
                + 1]);
        lemma_find_const_at(consts.drop_first(), v, i - 1);
    }
}

/// The dedup law: inserting a value and then inserting an equal value again
/// returns the same index and leaves the pool unchanged.
pub proof fn lemma_add_const_dedup(consts: Seq<LValueView>, v: LValueView)
    ensures
        ({
            let (c1, i) = sp_add_const(consts, v);
            let (c2, j) = sp_add_const(c1, v);
            c2 == c1 && j == i
        }),
{
    lemma_find_const_props(consts, v);
    let (c1, i) = sp_add_const(consts, v);
    if sp_find_const(consts, v) < 0 {
        lemma_find_const_at(c1, v, consts.len() as int);
    }
    lemma_find_const_props(c1, v);
}

/// Routing a literal through the constant pool: the pool after the
/// deduplicating insertion and the load instruction, unless the index no
/// longer fits an operand.
pub open spec fn sp_load_const(consts: Seq<LValueView>, dst: u8, v: LValueView) -> Result<
    (Seq<LValueView>, Bytecode),
    CompileError,
> {
    let (cs, i) = sp_add_const(consts, v);
    if i > 255 {
        Err(CompileError::TooManyConstants)
    } else {
        Ok((cs, Bytecode::LoadConst(dst, i as u8)))
    }
}

/// Every constant-pool operand in the sequence stays within the pool.
pub open spec fn wf_codes(consts: Seq<LValueView>, codes: Seq<Bytecode>) -> bool {
    forall|k: int|
        0 <= k < codes.len() ==> match #[trigger] codes[k] {
            Bytecode::GetGlobal(_dst, i) => (i as int) < consts.len(),
            Bytecode::LoadConst(_dst, i) => (i as int) < consts.len(),
            _ => true,
        }
}

/// Compilation of the statements of `src` from cursor `pos` onward, appended
/// to an already accumulated pool and code sequence. Each statement is a name
/// called either on one parenthesized literal or on a bare string literal.
pub open spec fn sp_compile(
    src: Seq<char>,
    pos: int,
    consts: Seq<LValueView>,
    codes: Seq<Bytecode>,
) -> Result<(Seq<LValueView>, Seq<Bytecode>), CompileError>
    decreases src.len() - pos,
    when 0 <= pos <= src.len()
    via sp_compile_dec
{
    let (t, p1) = sp_next(src, pos);
    match t {
        TokenView::Eos => Ok((consts, codes)),
        TokenView::Name(name) => {
            let (consts1, ic) = sp_add_const(consts, LValueView::Str(name));
            if ic > 255 {
                Err(CompileError::TooManyConstants)
            } else {
                let codes1 = codes.push(Bytecode::GetGlobal(0, ic as u8));
                let (t2, p2) = sp_next(src, p1);
                match t2 {
                    TokenView::ParLeft => {
                        let (t3, p3) = sp_next(src, p2);
                        let arg: Result<(Seq<LValueView>, Bytecode), CompileError> = match t3 {
                            TokenView::Nil => Ok((consts1, Bytecode::LoadNil(1))),
                            TokenView::True => Ok((consts1, Bytecode::LoadBool(1, true))),
                            TokenView::False => Ok((consts1, Bytecode::LoadBool(1, false))),
                            TokenView::ConstInteger(i) => if i16::MIN <= i && i <= i16::MAX {
                                Ok((consts1, Bytecode::LoadInt(1, i as i16)))
                            } else {
                                sp_load_const(consts1, 1, LValueView::Integer(i))
                            },
                            TokenView::ConstFloat(f) => sp_load_const(
                                consts1,
                                1,
                                LValueView::Float(f),
                            ),
                            TokenView::ConstString(s) => sp_load_const(
                                consts1,
                                1,
                                LValueView::Str(s),
                            ),
                            _ => Err(CompileError::InvalidArgument),
                        };
                        match arg {
                            Err(e) => Err(e),
                            Ok((consts2, code)) => {
                                let codes2 = codes1.push(code);
                                let (t4, p4) = sp_next(src, p3);
                                match t4 {
                                    TokenView::ParRight => sp_compile(
                                        src,
                                        p4,
                                        consts2,
                                        codes2.push(Bytecode::Call(0, 1)),
                                    ),
                                    _ => Err(CompileError::ExpectedParRight),
                                }
                            },
                        }
                    },
                    TokenView::ConstString(s) => {
                        match sp_load_const(consts1, 1, LValueView::Str(s)) {
                            Err(e) => Err(e),
                            Ok((consts2, code)) => sp_compile(
                                src,
                                p2,
                                consts2,
                                codes1.push(code).push(Bytecode::Call(0, 1)),
                            ),
                        }
                    },
                    _ => Err(CompileError::ExpectedString),
                }
            }
        },
        _ => Err(CompileError::UnexpectedToken),
    }
}

#[via_fn]
proof fn sp_compile_dec(src: Seq<char>, pos: int, consts: Seq<LValueView>, codes: Seq<Bytecode>) {
    lemma_sp_next_progress(src, pos);
    let (t, p1) = sp_next(src, pos);
    if !(t is Eos) {
        lemma_sp_next_progress(src, p1);
        let (t2, p2) = sp_next(src, p1);
        if !(t2 is Eos) {
            lemma_sp_next_progress(src, p2);
            let (t3, p3) = sp_next(src, p2);
            if !(t3 is Eos) {
                lemma_sp_next_progress(src, p3);
            }
        }
    }
}

/// The output of compilation: the deduplicated constant pool and the ordered
/// bytecode sequence, immutable once produced and read-only input to the
/// virtual machine.
#[derive(Debug)]
pub struct ParseProto {
    pub constants: Vec<LValue>,
    pub byte_codes: Vec<Bytecode>,
}

impl ParseProto {
    /// Every constant-pool operand referenced by an instruction is valid, as
    /// the compiler guarantees.
    pub open spec fn wf(&self) -> bool {
        wf_codes(cview(self.constants@), self.byte_codes@)
    }
}

/// Inserts a value into the constant pool unless an equal one is already
/// there; returns the value's index within the pool.
pub fn add_const(constants: &mut Vec<LValue>, c: LValue) -> (idx: usize)
    ensures
        ({
            let (cs, i) = sp_add_const(cview(old(constants)@), c@);
            cview(final(constants)@) == cs && idx as int == i
        }),
{
    let ghost cv = cview(constants@);
    let n = constants.len();
    let mut i: usize = 0;
    while i < n
        invariant
            n == constants@.len(),
            cv == cview(constants@),
            0 <= i <= n,
            forall|j: int| 0 <= j < i ==> #[trigger] cv[j] != c@,
        decreases n - i,
    {
        if constants[i] == c {
            proof {
                lemma_find_const_at(cv, c@, i as int);
            }
            return i;
        }
        i += 1;
    }
    proof {
        lemma_find_const_at(cv, c@, n as int);
    }
    constants.push(c);
    proof {
        assert(cview(constants@) =~= cv.push(cview(constants@)[n as int]));
    }
    n
}

/// Emits the instruction that loads a pooled constant into a register.
pub fn load_const(constants: &mut Vec<LValue>, dst: u8, c: LValue) -> (r: Result<
    Bytecode,
    CompileError,
>)
    ensures
        cview(final(constants)@) == sp_add_const(cview(old(constants)@), c@).0,
        ({
            match sp_load_const(cview(old(constants)@), dst, c@) {
                Ok((_cs, code)) => r == Ok::<Bytecode, CompileError>(code),
                Err(e) => r == Err::<Bytecode, CompileError>(e),
            }
        }),
{
    let idx = add_const(constants, c);
    if idx > 255 {
        Err(CompileError::TooManyConstants)
    } else {
        Ok(Bytecode::LoadConst(dst, idx as u8))
    }
}

proof fn lemma_wf_codes_extend(c1: Seq<LValueView>, c2: Seq<LValueView>, codes: Seq<Bytecode>)
    requires
        wf_codes(c1, codes),
        c1.len() <= c2.len(),
    ensures
        wf_codes(c2, codes),
{
}

proof fn lemma_wf_codes_push(c: Seq<LValueView>, codes: Seq<Bytecode>, b: Bytecode)
    requires
        wf_codes(c, codes),
        match b {
            Bytecode::GetGlobal(_dst, i) => (i as int) < c.len(),
            Bytecode::LoadConst(_dst, i) => (i as int) < c.len(),
            _ => true,
        },
    ensures
        wf_codes(c, codes.push(b)),
{
    assert(forall|k: int| 0 <= k < codes.len() ==> codes.push(b)[k] == #[trigger] codes[k]);
    assert(codes.push(b)[codes.len() as int] == b);
}

/// Single-pass compilation of the lexer's remaining input into a compiled
/// unit. Returns the unit exactly when the whole input fits the statement
/// grammar; otherwise the error that aborted compilation, with no partial
/// unit produced.
#[verifier::loop_isolation(false)]
pub fn load(lex: Lexer) -> (r: Result<ParseProto, CompileError>)
    requires
        lex.wf(),
    ensures
        ({
            let res = sp_compile(lex.src@, lex.pos as int, Seq::empty(), Seq::empty());
            match r {
                Ok(p) => res == Ok::<(Seq<LValueView>, Seq<Bytecode>), CompileError>(
                    (cview(p.constants@), p.byte_codes@),
                ) && p.wf(),
                Err(e) => res == Err::<(Seq<LValueView>, Seq<Bytecode>), CompileError>(e),
            }
        }),
{
    let mut lex = lex;
    let ghost s = lex.src@;
    let ghost pos0 = lex.pos as int;
    let mut constants: Vec<LValue> = Vec::new();
    let mut byte_codes: Vec<Bytecode> = Vec::new();
    proof {
        assert(cview(constants@) =~= Seq::<LValueView>::empty());
    }
    loop
        invariant
            lex.wf(),
            lex.src@ == s,
            wf_codes(cview(constants@), byte_codes@),
            sp_compile(s, pos0, Seq::empty(), Seq::empty()) == sp_compile(
                s,
                lex.pos as int,
                cview(constants@),
                byte_codes@,
            ),
        decreases s.len() - lex.pos,
    {
        let ghost hp = lex.pos as int;
        let ghost hc = cview(constants@);
        let ghost hb = byte_codes@;
        proof {
            lemma_sp_next_progress(s, hp);
        }
        let t = lex.next();
        match t {
            Token::Eos => {
                return Ok(ParseProto { constants, byte_codes });
            },
            Token::Name(name) => {
                let ghost namev = name@;
                proof {
                    lemma_find_const_props(hc, LValueView::Str(namev));
                }
                let ic = add_const(&mut constants, LValue::String(name));
                if ic > 255 {
                    return Err(CompileError::TooManyConstants);
                }
                proof {
                    lemma_wf_codes_extend(hc, cview(constants@), byte_codes@);
                    lemma_wf_codes_push(
                        cview(constants@),
                        byte_codes@,
                        Bytecode::GetGlobal(0, ic as u8),
                    );
                }
                byte_codes.push(Bytecode::GetGlobal(0, ic as u8));
                let ghost c1 = cview(constants@);
                let ghost b1 = byte_codes@;
                let ghost p1 = lex.pos as int;
                proof {
                    lemma_sp_next_progress(s, p1);
                }
                let t2 = lex.next();
                match t2 {
                    Token::ParLeft => {
                        let ghost p2 = lex.pos as int;
                        proof {
                            lemma_sp_next_progress(s, p2);
                        }
                        let t3 = lex.next();
                        let code = match t3 {
                            Token::Nil => Bytecode::LoadNil(1),
                            Token::True => Bytecode::LoadBool(1, true),
                            Token::False => Bytecode::LoadBool(1, false),
                            Token::ConstInteger(i) => {
                                if i >= i16::MIN as i64 && i <= i16::MAX as i64 {
                                    Bytecode::LoadInt(1, i as i16)
                                } else {
                                    proof {
                                        lemma_find_const_props(c1, LValueView::Integer(i as int));
                                    }
                                    match load_const(&mut constants, 1, LValue::Integer(i)) {
                                        Ok(cd) => cd,
                                        Err(e) => {
                                            return Err(e);
                                        },
                                    }
                                }
                            },
                            Token::ConstFloat(f) => {
                                proof {
                                    lemma_find_const_props(c1, LValueView::Float(f@));
                                }
                                match load_const(&mut constants, 1, LValue::Float(f)) {
                                    Ok(cd) => cd,
                                    Err(e) => {
                                        return Err(e);
                                    },
                                }
                            },
                            Token::ConstString(st) => {
                                proof {
                                    lemma_find_const_props(c1, LValueView::Str(st@));
                                }
                                match load_const(&mut constants, 1, LValue::String(st)) {
                                    Ok(cd) => cd,
                                    Err(e) => {
                                        return Err(e);
                                    },
                                }
                            },
                            _ => {
                                return Err(CompileError::InvalidArgument);
                            },
                        };
                        proof {
                            lemma_wf_codes_extend(c1, cview(constants@), byte_codes@);
                            lemma_wf_codes_push(cview(constants@), byte_codes@, code);
                        }
                        byte_codes.push(code);
                        proof {
                            lemma_wf_codes_push(
                                cview(constants@),
                                byte_codes@,
                                Bytecode::Call(0, 1),
                            );
                        }
                        let ghost p3 = lex.pos as int;
                        proof {
                            lemma_sp_next_progress(s, p3);
                        }
                        let t4 = lex.next();
                        match t4 {
                            Token::ParRight => {
                                byte_codes.push(Bytecode::Call(0, 1));
                            },
                            _ => {
                                return Err(CompileError::ExpectedParRight);
                            },
                        }
                    },
                    Token::ConstString(st) => {
                        proof {
                            lemma_find_const_props(c1, LValueView::Str(st@));
                        }
                        let code = match load_const(&mut constants, 1, LValue::String(st)) {
                            Ok(cd) => cd,
                            Err(e) => {
                                return Err(e);
                            },
                        };
                        proof {
                            lemma_wf_codes_extend(c1, cview(constants@), byte_codes@);
                            lemma_wf_codes_push(cview(constants@), byte_codes@, code);
                        }
                        byte_codes.push(code);
                        proof {
                            lemma_wf_codes_push(
                                cview(constants@),
                                byte_codes@,
                                Bytecode::Call(0, 1),
                            );
                        }
                        byte_codes.push(Bytecode::Call(0, 1));
                    },
                    _ => {
                        return Err(CompileError::ExpectedString);
                    },
                }
            },
            _ => {
                return Err(CompileError::UnexpectedToken);
            },
        }
    }
}

/// An integer literal within the compact immediate range is emitted as an
/// immediate load, with no constant-pool entry beyond the called name.
pub proof fn lemma_compact_int_uses_immediate(src: Seq<char>, pos: int, name: Seq<char>, n: int)
    requires
        0 <= pos <= src.len(),
        ({
            let (t1, p1) = sp_next(src, pos);
            let (t2, p2) = sp_next(src, p1);
            let (t3, p3) = sp_next(src, p2);
            let (t4, p4) = sp_next(src, p3);
            t1 == TokenView::Name(name) && t2 is ParLeft && t3 == TokenView::ConstInteger(n) && t4
                is ParRight && sp_next(src, p4).0 is Eos
        }),
        i16::MIN <= n <= i16::MAX,
    ensures
        sp_compile(src, pos, Seq::empty(), Seq::empty()) == Ok::<
            (Seq<LValueView>, Seq<Bytecode>),
            CompileError,
        >(
            (
                seq![LValueView::Str(name)],
                seq![
                    Bytecode::GetGlobal(0, 0),
                    Bytecode::LoadInt(1, n as i16),
                    Bytecode::Call(0, 1),
                ],
            ),
        ),
{
    lemma_sp_next_progress(src, pos);
    let (t1, p1) = sp_next(src, pos);
    lemma_sp_next_progress(src, p1);
    let (t2, p2) = sp_next(src, p1);
    lemma_sp_next_progress(src, p2);
    let (t3, p3) = sp_next(src, p2);
    lemma_sp_next_progress(src, p3);
    let (t4, p4) = sp_next(src, p3);
    let consts1 = Seq::<LValueView>::empty().push(LValueView::Str(name));
    assert(consts1 =~= seq![LValueView::Str(name)]);
    let codes3 = Seq::<Bytecode>::empty().push(Bytecode::GetGlobal(0, 0)).push(
        Bytecode::LoadInt(1, n as i16),
    ).push(Bytecode::Call(0, 1));
    assert(codes3 =~= seq![
        Bytecode::GetGlobal(0, 0),
        Bytecode::LoadInt(1, n as i16),
        Bytecode::Call(0, 1),
    ]);
    assert(sp_compile(src, p4, consts1, codes3) == Ok::<
        (Seq<LValueView>, Seq<Bytecode>),
        CompileError,
    >((consts1, codes3)));
}

/// An integer literal outside the compact immediate range is routed through
/// the constant pool and loaded by a pool reference.
pub proof fn lemma_wide_int_uses_pool(src: Seq<char>, pos: int, name: Seq<char>, n: int)
    requires
        0 <= pos <= src.len(),
        ({
            let (t1, p1) = sp_next(src, pos);
            let (t2, p2) = sp_next(src, p1);
            let (t3, p3) = sp_next(src, p2);
            let (t4, p4) = sp_next(src, p3);
            t1 == TokenView::Name(name) && t2 is ParLeft && t3 == TokenView::ConstInteger(n) && t4
                is ParRight && sp_next(src, p4).0 is Eos
        }),
        !(i16::MIN <= n <= i16::MAX),
    ensures
        sp_compile(src, pos, Seq::empty(), Seq::empty()) == Ok::<
            (Seq<LValueView>, Seq<Bytecode>),
            CompileError,
        >(
            (
                seq![LValueView::Str(name), LValueView::Integer(n)],
                seq![
                    Bytecode::GetGlobal(0, 0),
                    Bytecode::LoadConst(1, 1),
                    Bytecode::Call(0, 1),
                ],
            ),
        ),
{
    lemma_sp_next_progress(src, pos);
    let (t1, p1) = sp_next(src, pos);
    lemma_sp_next_progress(src, p1);
    let (t2, p2) = sp_next(src, p1);
    lemma_sp_next_progress(src, p2);
    let (t3, p3) = sp_next(src, p2);
    lemma_sp_next_progress(src, p3);
    let (t4, p4) = sp_next(src, p3);
    let consts1 = Seq::<LValueView>::empty().push(LValueView::Str(name));
    lemma_find_const_at(consts1, LValueView::Integer(n), 1);
    let consts2 = consts1.push(LValueView::Integer(n));
    assert(consts2 =~= seq![LValueView::Str(name), LValueView::Integer(n)]);
    let codes3 = Seq::<Bytecode>::empty().push(Bytecode::GetGlobal(0, 0)).push(
        Bytecode::LoadConst(1, 1),
    ).push(Bytecode::Call(0, 1));
    assert(codes3 =~= seq![
        Bytecode::GetGlobal(0, 0),
        Bytecode::LoadConst(1, 1),
        Bytecode::Call(0, 1),
    ]);
    assert(sp_compile(src, p4, consts2, codes3) == Ok::<
        (Seq<LValueView>, Seq<Bytecode>),
        CompileError,
    >((consts2, codes3)));
}

/// Every float literal argument is routed through the constant pool and
/// loaded by a pool reference, never as an immediate.
pub proof fn lemma_float_uses_pool(src: Seq<char>, pos: int, name: Seq<char>, f: Seq<char>)
    requires
        0 <= pos <= src.len(),
        ({
            let (t1, p1) = sp_next(src, pos);
            let (t2, p2) = sp_next(src, p1);
            let (t3, p3) = sp_next(src, p2);
            let (t4, p4) = sp_next(src, p3);
            t1 == TokenView::Name(name) && t2 is ParLeft && t3 == TokenView::ConstFloat(f) && t4
                is ParRight && sp_next(src, p4).0 is Eos
        }),
    ensures
        sp_compile(src, pos, Seq::empty(), Seq::empty()) == Ok::<
            (Seq<LValueView>, Seq<Bytecode>),
            CompileError,
        >(
            (
                seq![LValueView::Str(name), LValueView::Float(f)],
                seq![
                    Bytecode::GetGlobal(0, 0),
                    Bytecode::LoadConst(1, 1),
                    Bytecode::Call(0, 1),
                ],
            ),
        ),
{
    lemma_sp_next_progress(src, pos);
    let (t1, p1) = sp_next(src, pos);
    lemma_sp_next_progress(src, p1);
    let (t2, p2) = sp_next(src, p1);
    lemma_sp_next_progress(src, p2);
    let (t3, p3) = sp_next(src, p2);
    lemma_sp_next_progress(src, p3);
    let (t4, p4) = sp_next(src, p3);
    let consts1 = Seq::<LValueView>::empty().push(LValueView::Str(name));
    lemma_find_const_at(consts1, LValueView::Float(f), 1);
    let consts2 = consts1.push(LValueView::Float(f));
    assert(consts2 =~= seq![LValueView::Str(name), LValueView::Float(f)]);
    let codes3 = Seq::<Bytecode>::empty().push(Bytecode::GetGlobal(0, 0)).push(
        Bytecode::LoadConst(1, 1),
    ).push(Bytecode::Call(0, 1));
    assert(codes3 =~= seq![
        Bytecode::GetGlobal(0, 0),
        Bytecode::LoadConst(1, 1),
        Bytecode::Call(0, 1),
    ]);
    assert(sp_compile(src, p4, consts2, codes3) == Ok::<
        (Seq<LValueView>, Seq<Bytecode>),
        CompileError,
    >((consts2, codes3)));
}

/// An unsupported token at statement start aborts the whole compilation.
pub proof fn lemma_unsupported_statement_start(
    src: Seq<char>,
    pos: int,
    consts: Seq<LValueView>,
    codes: Seq<Bytecode>,
)
    requires
        0 <= pos <= src.len(),
        !(sp_next(src, pos).0 is Name),
        !(sp_next(src, pos).0 is Eos),
    ensures
        sp_compile(src, pos, consts, codes) == Err::<(Seq<LValueView>, Seq<Bytecode>),
            CompileError,
        >(CompileError::UnexpectedToken),
{
}

} // verus!
