use vstd::prelude::*;
use crate::arch::{encode_op_regs, ArchError, Instruction, Memory, OpCode, RegMnem, MEM_SIZE};
use crate::lexer::{chars_of, preprocess, preprocess_spec, split_ws, token_spec, tokenize, Token, TokenView};

verus! {

/// The most instructions a program can hold: two words each.
pub const MAX_INS: usize = 16384;

/// An instruction whose immediate may still name a label.
#[derive(Debug)]
pub struct UnresolvedIns {
    pub op: OpCode,
    pub ra: RegMnem,
    pub rb: RegMnem,
    pub imm: Token,
}

/// An unresolved instruction as the assembler reads it.
pub ghost struct InsView {
    pub op: OpCode,
    pub ra: u16,
    pub rb: u16,
    pub imm: TokenView,
}

impl View for UnresolvedIns {
    type V = InsView;

    open spec fn view(&self) -> InsView {
        InsView { op: self.op, ra: self.ra.index(), rb: self.rb.index(), imm: self.imm@ }
    }
}

/// A declared label: its name, the address it stands for and the line that
/// declared it.
#[derive(Debug)]
pub struct LabelDef {
    pub name: String,
    pub addr: u16,
    pub line: u16,
}

/// Why an assembly fails.
pub ghost enum AsmFault {
    /// The label was declared on both lines.
    RepeatedLabel(Seq<char>, u16, u16),
    /// An immediate names a label that no line declares.
    UnresolvableLabel,
    /// An immediate slot holds neither a number nor a label.
    InvalidOperand,
    /// The program does not fit in memory.
    TooLong,
}

/// The error value that reports `f`.
pub open spec fn reports(e: ArchError, f: AsmFault) -> bool {
    match f {
        AsmFault::RepeatedLabel(n, a, b) => e matches ArchError::RepeatedLabel(s, a2, b2) && s@ == n
            && a2 == a && b2 == b,
        AsmFault::UnresolvableLabel => e is UnresolvableLabel,
        AsmFault::InvalidOperand => e is InvalidOperand,
        AsmFault::TooLong => e == ArchError::MemAddrOutOfRange(MEM_SIZE),
    }
}

/// The label table as (name, address, line) triples.
pub open spec fn label_views(v: Seq<LabelDef>) -> Seq<(Seq<char>, u16, u16)> {
    Seq::new(v.len(), |j: int| (v[j].name@, v[j].addr, v[j].line))
}

pub open spec fn ins_views(v: Seq<UnresolvedIns>) -> Seq<InsView> {
    Seq::new(v.len(), |j: int| v[j]@)
}

pub open spec fn token_views(v: Seq<Token>) -> Seq<TokenView> {
    Seq::new(v.len(), |j: int| v[j]@)
}

/// The address and declaring line of the label `name`, if declared.
pub open spec fn lookup(t: Seq<(Seq<char>, u16, u16)>, name: Seq<char>) -> Option<(u16, u16)>
    decreases t.len(),
{
    if t.len() == 0 {
        None
    } else if t.last().0 == name {
        Some((t.last().1, t.last().2))
    } else {
        lookup(t.drop_last(), name)
    }
}

/// Declaring `name` at `addr` on line `line`; a second declaration fails.
pub open spec fn declare(t: Seq<(Seq<char>, u16, u16)>, name: Seq<char>, addr: u16, line: u16) -> Result<
    Seq<(Seq<char>, u16, u16)>,
    AsmFault,
> {
    match lookup(t, name) {
        Some((_, first)) => Err(AsmFault::RepeatedLabel(name, first, line)),
        None => Ok(t.push((name, addr, line))),
    }
}

/// The register token at `j`, if there is one.
pub open spec fn tok_reg(toks: Seq<TokenView>, j: int) -> Option<u16> {
    if 0 <= j < toks.len() && toks[j] is Reg {
        Some(toks[j]->Reg_0)
    } else {
        None
    }
}

/// A number or a label: what may stand for an immediate.
pub open spec fn is_target(t: TokenView) -> bool {
    t is Imm || t is Label
}

/// The register at `j` or register 0, and how many tokens that took.
pub open spec fn reg_operand(toks: Seq<TokenView>, j: int) -> (u16, nat) {
    match tok_reg(toks, j) {
        Some(r) => (r, 1),
        None => (0, 0),
    }
}

/// The token at `j`, or the immediate 0 past the end.
pub open spec fn tok_or_zero(toks: Seq<TokenView>, j: int) -> TokenView {
    if 0 <= j < toks.len() {
        toks[j]
    } else {
        TokenView::Imm(0)
    }
}

/// The instruction that opcode `op`, at token `i`, makes with the tokens
/// after it, and how many of those it takes.
pub open spec fn operands(op: OpCode, toks: Seq<TokenView>, i: int) -> (InsView, nat) {
    if op.arity() == 0 {
        if i + 1 < toks.len() && is_target(toks[i + 1]) {
            (InsView { op, ra: 0, rb: 0, imm: toks[i + 1] }, 1)
        } else {
            (InsView { op, ra: 0, rb: 0, imm: TokenView::Imm(0) }, 0)
        }
    } else if op.arity() == 1 {
        if op == OpCode::Stor {
            if tok_reg(toks, i + 1) is Some {
                let ra = tok_reg(toks, i + 1)->0;
                if i + 2 < toks.len() {
                    (InsView { op, ra, rb: 0, imm: toks[i + 2] }, 2)
                } else {
                    (InsView { op, ra, rb: 0, imm: TokenView::Imm(0) }, 1)
                }
            } else {
                let used: nat = if i + 1 < toks.len() { 1 } else { 0 };
                let (ra, o) = reg_operand(toks, i + 2);
                (InsView { op, ra, rb: 0, imm: tok_or_zero(toks, i + 1) }, used + o)
            }
        } else {
            let (ra, o) = reg_operand(toks, i + 1);
            if (op == OpCode::SetImm || op == OpCode::Load || op == OpCode::Shl || op == OpCode::Shr)
                && i + 2 < toks.len() && is_target(toks[i + 2]) {
                (InsView { op, ra, rb: 0, imm: toks[i + 2] }, o + 1)
            } else {
                (InsView { op, ra, rb: 0, imm: TokenView::Imm(0) }, o)
            }
        }
    } else {
        let (ra, o1) = reg_operand(toks, i + 1);
        let (rb, o2) = reg_operand(toks, i + 2);
        if op.is_jump() {
            (InsView { op, ra, rb, imm: tok_or_zero(toks, i + 3) }, o1 + o2 + 1)
        } else {
            (InsView { op, ra, rb, imm: TokenView::Imm(0) }, o1 + o2)
        }
    }
}

/// What the assembler has gathered: instructions in order and the labels.
pub ghost struct AsmState {
    pub ins: Seq<InsView>,
    pub labels: Seq<(Seq<char>, u16, u16)>,
}

/// The walk over the tokens of line `line` from token `i`.
pub open spec fn walk_line(toks: Seq<TokenView>, i: int, st: AsmState, line: u16) -> Result<
    AsmState,
    AsmFault,
>
    decreases toks.len() - i,
{
    if i < 0 || i >= toks.len() {
        Ok(st)
    } else {
        match toks[i] {
            TokenView::Op(op) => if st.ins.len() >= MAX_INS {
                Err(AsmFault::TooLong)
            } else {
                let (iv, o) = operands(op, toks, i);
                let next = if i + o + 1 > toks.len() {
                    toks.len() as int
                } else {
                    i + o + 1
                };
                walk_line(toks, next, AsmState { ins: st.ins.push(iv), labels: st.labels }, line)
            },
            TokenView::Label(name, _) => match declare(st.labels, name, #[verifier::truncate] ((2 * st.ins.len()) as u16), line) {
                Err(f) => Err(f),
                Ok(t) => walk_line(toks, i + 1, AsmState { ins: st.ins, labels: t }, line),
            },
            _ => walk_line(toks, i + 1, st, line),
        }
    }
}

/// The tokens of source line number `k`.
pub open spec fn line_tokens(line: Seq<char>, k: u16) -> Seq<TokenView> {
    Seq::new(
        split_ws(preprocess_spec(line)).len(),
        |j: int| token_spec(split_ws(preprocess_spec(line))[j], k),
    )
}

/// The walk over the source lines from line `k`.
pub open spec fn walk_lines(lines: Seq<Seq<char>>, k: int, st: AsmState) -> Result<AsmState, AsmFault>
    decreases lines.len() - k,
{
    if k < 0 || k >= lines.len() {
        Ok(st)
    } else {
        let n = (k % 0x10000) as u16;
        match walk_line(line_tokens(lines[k], n), 0, st, n) {
            Err(f) => Err(f),
            Ok(st2) => walk_lines(lines, k + 1, st2),
        }
    }
}

/// The value of an immediate slot.
pub open spec fn resolve_imm(t: TokenView, labels: Seq<(Seq<char>, u16, u16)>) -> Result<u16, AsmFault> {
    match t {
        TokenView::Imm(v) => Ok(v),
        TokenView::Label(name, _) => match lookup(labels, name) {
            Some((a, _)) => Ok(a),
            None => Err(AsmFault::UnresolvableLabel),
        },
        _ => Err(AsmFault::InvalidOperand),
    }
}

/// One instruction with its immediate resolved.
pub open spec fn resolve_one(iv: InsView, labels: Seq<(Seq<char>, u16, u16)>) -> Result<
    Instruction,
    AsmFault,
> {
    match resolve_imm(iv.imm, labels) {
        Ok(v) => Ok(Instruction { word_op_regs: encode_op_regs(iv.op.index(), iv.ra, iv.rb), word_imm: v }),
        Err(f) => Err(f),
    }
}

/// All instructions resolved, in order; the first failure is reported.
pub open spec fn resolve_all(ins: Seq<InsView>, labels: Seq<(Seq<char>, u16, u16)>) -> Result<
    Seq<Instruction>,
    AsmFault,
>
    decreases ins.len(),
{
    if ins.len() == 0 {
        Ok(Seq::empty())
    } else {
        match resolve_all(ins.drop_last(), labels) {
            Err(f) => Err(f),
            Ok(p) => match resolve_one(ins.last(), labels) {
                Err(f) => Err(f),
                Ok(x) => Ok(p.push(x)),
            },
        }
    }
}

/// The program that the source lines assemble to.
pub open spec fn assemble_spec(lines: Seq<Seq<char>>) -> Result<Seq<Instruction>, AsmFault> {
    match walk_lines(lines, 0, AsmState { ins: Seq::empty(), labels: Seq::empty() }) {
        Err(f) => Err(f),
        Ok(st) => resolve_all(st.ins, st.labels),
    }
}

/// A memory holds exactly `prog` from offset 0, and zeros after it.
pub open spec fn holds_program(m: Memory, prog: Seq<Instruction>) -> bool {
    &&& m.wf()
    &&& m.next() == 2 * prog.len()
    &&& forall|j: int| 0 <= j < prog.len() ==> m.words()[2 * j] == prog[j].word_op_regs && m.words()[2 * j + 1]
        == prog[j].word_imm
    &&& forall|k: int| 2 * prog.len() <= k < MEM_SIZE ==> m.words()[k] == 0
}


impl UnresolvedIns {
    pub fn new(op: OpCode, ra: RegMnem, rb: RegMnem, imm: Token) -> (r: UnresolvedIns)
        ensures
            r.op == op,
            r.ra == ra,
            r.rb == rb,
            r.imm == imm,
    {
        UnresolvedIns { op, ra, rb, imm }
    }

    /// The instruction with its immediate looked up in `labels`.
    pub fn resolve(&self, labels: &Vec<LabelDef>) -> (r: Result<Instruction, ArchError>)
        ensures
            match resolve_one(self@, label_views(labels@)) {
                Ok(x) => r == Ok::<Instruction, ArchError>(x),
                Err(f) => r matches Err(e) && reports(e, f),
            },
    {
        let imm: u16 = match &self.imm {
            Token::Imm(v) => *v,
            Token::Label(lbl, _) => match find_label(labels, lbl) {
                Some((a, _)) => a,
                None => {
                    return Err(ArchError::UnresolvableLabel("Parse Error: unresolved label"));
                },
            },
            _ => {
                return Err(
                    ArchError::InvalidOperand(
                        "Parse Error: operand in immediate/address position not immediate or label",
                    ),
                );
            },
        };
        Ok(Instruction::with_vals(self.op, self.ra, self.rb, imm))
    }
}

/// The address and declaring line of the label `name`, if declared.
pub fn find_label(labels: &Vec<LabelDef>, name: &String) -> (r: Option<(u16, u16)>)
    ensures
        r == lookup(label_views(labels@), name@),
{
    let ghost t = label_views(labels@);
    let mut j: usize = labels.len();
    assert(t.subrange(0, j as int) =~= t);
    while j > 0
        invariant
            j <= labels@.len(),
            t == label_views(labels@),
            lookup(t.subrange(0, j as int), name@) == lookup(t, name@),
        decreases j,
    {
        assert(t.subrange(0, j as int).drop_last() =~= t.subrange(0, j - 1));
        let e = &labels[j - 1];
        if e.name.eq(name) {
            return Some((e.addr, e.line));
        }
        j = j - 1;
    }
    None
}

/// Records the label token `tok` at `addr`; a second declaration of one
/// name fails with both lines, and a token that is no label is refused.
/// On an error the table is left as it was.
pub fn handle_label(tok: &Token, labels: &mut Vec<LabelDef>, addr: u16, line_num: u16) -> (r: Result<
    (),
    ArchError,
>)
    ensures
        tok@ is Label ==> match declare(label_views(old(labels)@), tok@->Label_0, addr, line_num) {
            Ok(t) => r is Ok && label_views(final(labels)@) == t,
            Err(f) => r matches Err(e) && reports(e, f),
        },
        !(tok@ is Label) ==> r matches Err(ArchError::InvalidOperand(_)),
        r is Err ==> final(labels)@ == old(labels)@,
{
    match tok {
        Token::Label(lbl, _) => {
            match find_label(labels, lbl) {
                Some((_, first)) => Err(ArchError::RepeatedLabel(lbl.clone(), first, line_num)),
                None => {
                    let ghost before = labels@;
                    labels.push(LabelDef { name: lbl.clone(), addr, line: line_num });
                    assert(label_views(labels@) =~= label_views(before).push((lbl@, addr, line_num)));
                    Ok(())
                },
            }
        },
        _ => Err(ArchError::InvalidOperand("Parse Error: attempted to treat non-label token as label")),
    }
}

/// The register token `d` places after `i`, if there is one.
fn tok_reg_at(tokens: &Vec<Token>, i: usize, d: usize) -> (r: Option<RegMnem>)
    requires
        i <= tokens@.len(),
    ensures
        match tok_reg(token_views(tokens@), i + d) {
            Some(x) => r matches Some(m) && m.index() == x,
            None => r is None,
        },
{
    if d < tokens.len() - i {
        match &tokens[i + d] {
            Token::Reg(m) => Some(*m),
            _ => None,
        }
    } else {
        None
    }
}

fn is_target_tok(t: &Token) -> (r: bool)
    ensures
        r == is_target(t@),
{
    match t {
        Token::Imm(_) | Token::Label(_, _) => true,
        _ => false,
    }
}

/// An instruction of opcode `op` without register operands: `Call`, with
/// its target after it.
fn handle_op_0reg(op: OpCode, tokens: &Vec<Token>, instructions: &mut Vec<UnresolvedIns>, i: &mut usize)
    requires
        op.arity() == 0,
        *old(i) < tokens@.len(),
    ensures
        ins_views(final(instructions)@) == ins_views(old(instructions)@).push(
            operands(op, token_views(tokens@), *old(i) as int).0,
        ),
        *final(i) == *old(i) + operands(op, token_views(tokens@), *old(i) as int).1,
{
    let at = *i;
    let n = tokens.len();
    let (ins, used) = if 1 < n - at && is_target_tok(&tokens[at + 1]) {
        (UnresolvedIns::new(op, RegMnem::Pc, RegMnem::Pc, tokens[at + 1].copy()), 1usize)
    } else {
        (UnresolvedIns::new(op, RegMnem::Pc, RegMnem::Pc, Token::Imm(0)), 0usize)
    };
    let ghost before = instructions@;
    instructions.push(ins);
    assert(ins_views(instructions@) =~= ins_views(before).push(ins@));
    *i = at + used;
}

/// An instruction with one register operand, and an immediate for `Set`,
/// `Load`, `Shl` and `Shr` after it; `Stor` takes its address and its
/// register in either order.
fn handle_op_1reg(op: OpCode, tokens: &Vec<Token>, instructions: &mut Vec<UnresolvedIns>, i: &mut usize)
    requires
        op.arity() == 1,
        *old(i) < tokens@.len(),
    ensures
        ins_views(final(instructions)@) == ins_views(old(instructions)@).push(
            operands(op, token_views(tokens@), *old(i) as int).0,
        ),
        *final(i) == *old(i) + operands(op, token_views(tokens@), *old(i) as int).1,
{
    let at = *i;
    let n = tokens.len();
    let (ins, used) = if op == OpCode::Stor {
        match tok_reg_at(tokens, at, 1) {
            Some(ra) => {
                if 2 < n - at {
                    (UnresolvedIns::new(op, ra, RegMnem::Pc, tokens[at + 2].copy()), 2usize)
                } else {
                    (UnresolvedIns::new(op, ra, RegMnem::Pc, Token::Imm(0)), 1usize)
                }
            },
            None => {
                let imm = if 1 < n - at {
                    tokens[at + 1].copy()
                } else {
                    Token::Imm(0)
                };
                let u1: usize = if 1 < n - at {
                    1
                } else {
                    0
                };
                match tok_reg_at(tokens, at, 2) {
                    Some(ra) => (UnresolvedIns::new(op, ra, RegMnem::Pc, imm), u1 + 1),
                    None => (UnresolvedIns::new(op, RegMnem::Pc, RegMnem::Pc, imm), u1),
                }
            },
        }
    } else {
        let (ra, o) = match tok_reg_at(tokens, at, 1) {
            Some(m) => (m, 1usize),
            None => (RegMnem::Pc, 0usize),
        };
        let takes_imm = op == OpCode::SetImm || op == OpCode::Load || op == OpCode::Shl || op
            == OpCode::Shr;
        if takes_imm && 2 < n - at && is_target_tok(&tokens[at + 2]) {
            (UnresolvedIns::new(op, ra, RegMnem::Pc, tokens[at + 2].copy()), o + 1)
        } else {
            (UnresolvedIns::new(op, ra, RegMnem::Pc, Token::Imm(0)), o)
        }
    };
    let ghost before = instructions@;
    instructions.push(ins);
    assert(ins_views(instructions@) =~= ins_views(before).push(ins@));
    *i = at + used;
}

/// An instruction with two register operands, and a target after them for
/// the conditional jumps.
fn handle_op_2reg(op: OpCode, tokens: &Vec<Token>, instructions: &mut Vec<UnresolvedIns>, i: &mut usize)
    requires
        op.arity() == 2,
        *old(i) < tokens@.len(),
    ensures
        ins_views(final(instructions)@) == ins_views(old(instructions)@).push(
            operands(op, token_views(tokens@), *old(i) as int).0,
        ),
        *final(i) == *old(i) + operands(op, token_views(tokens@), *old(i) as int).1,
{
    let at = *i;
    let n = tokens.len();
    let (ra, o1) = match tok_reg_at(tokens, at, 1) {
        Some(m) => (m, 1usize),
        None => (RegMnem::Pc, 0usize),
    };
    let (rb, o2) = match tok_reg_at(tokens, at, 2) {
        Some(m) => (m, 1usize),
        None => (RegMnem::Pc, 0usize),
    };
    let is_jump = match op {
        OpCode::Jl | OpCode::Jle | OpCode::Je | OpCode::Jne | OpCode::Jge | OpCode::Jg => true,
        _ => false,
    };
    let (imm, used) = if is_jump {
        if 3 < n - at {
            (tokens[at + 3].copy(), o1 + o2 + 1)
        } else {
            (Token::Imm(0), o1 + o2 + 1)
        }
    } else {
        (Token::Imm(0), o1 + o2)
    };
    let ins = UnresolvedIns::new(op, ra, rb, imm);
    let ghost before = instructions@;
    instructions.push(ins);
    assert(ins_views(instructions@) =~= ins_views(before).push(ins@));
    *i = at + used;
}

/// Reads the operands of opcode `op` at token `i` and records the
/// instruction; `i` moves to the last token it took.
fn handle_op(op: OpCode, tokens: &Vec<Token>, instructions: &mut Vec<UnresolvedIns>, i: &mut usize)
    requires
        *old(i) < tokens@.len(),
    ensures
        ins_views(final(instructions)@) == ins_views(old(instructions)@).push(
            operands(op, token_views(tokens@), *old(i) as int).0,
        ),
        *final(i) == *old(i) + operands(op, token_views(tokens@), *old(i) as int).1,
{
    let num_regs = op.num_regs();
    if num_regs == 0 {
        handle_op_0reg(op, tokens, instructions, i);
    } else if num_regs == 1 {
        handle_op_1reg(op, tokens, instructions, i);
    } else {
        handle_op_2reg(op, tokens, instructions, i);
    }
}

/// Walks the tokens of one line: opcodes make instructions, labels are
/// declared at the address of the next instruction, other tokens are
/// passed over.
pub fn parse_tokens(
    tokens: &Vec<Token>,
    linenum: u16,
    instructions: &mut Vec<UnresolvedIns>,
    labels: &mut Vec<LabelDef>,
) -> (r: Result<(), ArchError>)
    requires
        old(instructions)@.len() <= MAX_INS,
    ensures
        final(instructions)@.len() <= MAX_INS,
        match walk_line(
            token_views(tokens@),
            0,
            AsmState { ins: ins_views(old(instructions)@), labels: label_views(old(labels)@) },
            linenum,
        ) {
            Ok(st) => r is Ok && ins_views(final(instructions)@) == st.ins && label_views(final(labels)@)
                == st.labels,
            Err(f) => r matches Err(e) && reports(e, f),
        },
{
    let ghost tv = token_views(tokens@);
    let ghost start = AsmState { ins: ins_views(instructions@), labels: label_views(labels@) };
    let n = tokens.len();
    let mut i: usize = 0;
    while i < n
        invariant
            n == tokens@.len(),
            tv == token_views(tokens@),
            start == (AsmState { ins: ins_views(old(instructions)@), labels: label_views(old(labels)@) }),
            i <= n,
            instructions@.len() <= MAX_INS,
            walk_line(tv, i as int, AsmState { ins: ins_views(instructions@), labels: label_views(labels@) }, linenum)
                == walk_line(tv, 0, start, linenum),
        decreases n - i,
    {
        assert(tv[i as int] == tokens@[i as int]@);
        match &tokens[i] {
            Token::Op(op) => {
                if instructions.len() >= MAX_INS {
                    assert(ins_views(instructions@).len() == instructions@.len());
                    return Err(ArchError::MemAddrOutOfRange(MEM_SIZE));
                }
                handle_op(*op, tokens, instructions, &mut i);
                if i < n {
                    i = i + 1;
                } else {
                    i = n;
                }
            },
            Token::Label(_, _) => {
                let addr = (2 * instructions.len()) as u16;
                assert(ins_views(instructions@).len() == instructions@.len());
                assert(addr == #[verifier::truncate] ((2 * ins_views(instructions@).len()) as u16));
                match handle_label(&tokens[i], labels, addr, linenum) {
                    Ok(()) => {},
                    Err(e) => {
                        return Err(e);
                    },
                }
                i = i + 1;
            },
            _ => {
                i = i + 1;
            },
        }
    }
    Ok(())
}

/// The lines' characters.
pub open spec fn line_views(v: Seq<String>) -> Seq<Seq<char>> {
    Seq::new(v.len(), |k: int| v[k]@)
}

/// Where the instructions up to `j` resolve but one of them fails, the
/// whole list fails the same way.
proof fn lemma_resolve_err_prefix(ins: Seq<InsView>, labels: Seq<(Seq<char>, u16, u16)>, j: int)
    requires
        0 <= j <= ins.len(),
        resolve_all(ins.subrange(0, j), labels) is Err,
    ensures
        resolve_all(ins, labels) == resolve_all(ins.subrange(0, j), labels),
    decreases ins.len() - j,
{
    if j < ins.len() {
        assert(ins.subrange(0, j + 1).drop_last() =~= ins.subrange(0, j));
        lemma_resolve_err_prefix(ins, labels, j + 1);
    } else {
        assert(ins.subrange(0, j) =~= ins);
    }
}

/// Assembles source lines into a memory that holds the program from
/// offset 0.
pub fn parse_lines(lines: &Vec<String>) -> (r: Result<Memory, ArchError>)
    ensures
        match assemble_spec(line_views(lines@)) {
            Ok(prog) => r matches Ok(m) && holds_program(m, prog),
            Err(f) => r matches Err(e) && reports(e, f),
        },
{
    let ghost lv = line_views(lines@);
    let ghost init = AsmState { ins: Seq::empty(), labels: Seq::empty() };
    let mut instructions: Vec<UnresolvedIns> = Vec::new();
    let mut labels: Vec<LabelDef> = Vec::new();
    assert(ins_views(instructions@) =~= Seq::<InsView>::empty());
    assert(label_views(labels@) =~= Seq::<(Seq<char>, u16, u16)>::empty());
    let mut k: usize = 0;
    while k < lines.len()
        invariant
            lv == line_views(lines@),
            init == (AsmState { ins: Seq::empty(), labels: Seq::empty() }),
            k <= lines@.len(),
            instructions@.len() <= MAX_INS,
            walk_lines(lv, k as int, AsmState { ins: ins_views(instructions@), labels: label_views(labels@) })
                == walk_lines(lv, 0, init),
        decreases lines@.len() - k,
    {
        let chars = chars_of(lines[k].as_str());
        let pre = preprocess(&chars);
        let linenum: u16 = (k % 0x10000) as u16;
        let tokens = tokenize(&pre, linenum);
        assert(token_views(tokens@) =~= line_tokens(lv[k as int], linenum));
        let ghost st0 = AsmState { ins: ins_views(instructions@), labels: label_views(labels@) };
        match parse_tokens(&tokens, linenum, &mut instructions, &mut labels) {
            Ok(()) => {},
            Err(e) => {
                assert(walk_line(line_tokens(lv[k as int], linenum), 0, st0, linenum) is Err);
                assert(walk_lines(lv, k as int, st0) == walk_line(line_tokens(lv[k as int], linenum), 0, st0, linenum));
                return Err(e);
            },
        }
        k = k + 1;
    }
    let ghost insv = ins_views(instructions@);
    let ghost labv = label_views(labels@);
    let ghost prog: Seq<Instruction> = Seq::empty();
    let mut mem = Memory::new();
    let mut j: usize = 0;
    assert(insv.subrange(0, 0) =~= Seq::<InsView>::empty());
    while j < instructions.len()
        invariant
            insv == ins_views(instructions@),
            labv == label_views(labels@),
            lv == line_views(lines@),
            instructions@.len() <= MAX_INS,
            j <= instructions@.len(),
            resolve_all(insv.subrange(0, j as int), labv) == Ok::<Seq<Instruction>, AsmFault>(prog),
            prog.len() == j,
            holds_program(mem, prog),
            assemble_spec(lv) == resolve_all(insv, labv),
        decreases instructions@.len() - j,
    {
        assert(insv.subrange(0, j + 1).drop_last() =~= insv.subrange(0, j as int));
        assert(insv[j as int] == instructions@[j as int]@);
        match instructions[j].resolve(&labels) {
            Ok(ins) => {
                mem.add_ins(ins);
                proof {
                    prog = prog.push(ins);
                }
            },
            Err(e) => {
                assert(insv.subrange(0, j + 1).last() == insv[j as int]);
                assert(resolve_one(insv[j as int], labv) is Err);
                assert(resolve_all(insv.subrange(0, j + 1), labv) == Err::<Seq<Instruction>, AsmFault>(
                    resolve_one(insv[j as int], labv)->Err_0,
                ));
                proof {
                    lemma_resolve_err_prefix(insv, labv, j + 1);
                }
                return Err(e);
            },
        }
        j = j + 1;
    }
    assert(insv.subrange(0, j as int) =~= insv);
    Ok(mem)
}


/// A label declared at address `a` resolves to `a`: after the declaration,
/// every instruction whose immediate names the label is encoded with `a` as
/// its immediate word, and so it stays while other labels are declared.
pub proof fn lemma_label_resolves(
    t: Seq<(Seq<char>, u16, u16)>,
    name: Seq<char>,
    a: u16,
    line: u16,
    later: Seq<(Seq<char>, u16, u16)>,
    iv: InsView,
)
    requires
        declare(t, name, a, line) is Ok,
        forall|j: int| 0 <= j < later.len() ==> (#[trigger] later[j]).0 != name,
        iv.imm is Label,
        iv.imm->Label_0 == name,
    ensures
        resolve_one(iv, declare(t, name, a, line)->Ok_0 + later) == Ok::<Instruction, AsmFault>(
            Instruction { word_op_regs: encode_op_regs(iv.op.index(), iv.ra, iv.rb), word_imm: a },
        ),
    decreases later.len(),
{
    let t2 = declare(t, name, a, line)->Ok_0;
    if later.len() == 0 {
        assert(t2 + later =~= t2);
    } else {
        assert((t2 + later).drop_last() =~= t2 + later.drop_last());
        lemma_label_resolves(t, name, a, line, later.drop_last(), iv);
    }
}

/// Declaring a label that is already declared fails with `RepeatedLabel`,
/// naming the line of the first declaration and the line of the second.
pub proof fn lemma_repeated_label(
    t: Seq<(Seq<char>, u16, u16)>,
    name: Seq<char>,
    a1: u16,
    line1: u16,
    a2: u16,
    line2: u16,
)
    requires
        declare(t, name, a1, line1) is Ok,
    ensures
        declare(declare(t, name, a1, line1)->Ok_0, name, a2, line2) == Err::<
            Seq<(Seq<char>, u16, u16)>,
            AsmFault,
        >(AsmFault::RepeatedLabel(name, line1, line2)),
{
}


/// Where a whole instruction list resolves, the program has one instruction
/// for each, and every instruction whose immediate names a label carries the
/// address that the table holds for that label.
pub proof fn lemma_resolved_references(ins: Seq<InsView>, labels: Seq<(Seq<char>, u16, u16)>, j: int)
    requires
        resolve_all(ins, labels) is Ok,
        0 <= j < ins.len(),
    ensures
        resolve_all(ins, labels)->Ok_0.len() == ins.len(),
        ins[j].imm is Label ==> lookup(labels, ins[j].imm->Label_0) is Some
            && resolve_all(ins, labels)->Ok_0[j].word_imm == lookup(labels, ins[j].imm->Label_0)->Some_0.0,
    decreases ins.len(),
{
    let init = ins.drop_last();
    if j < ins.len() - 1 {
        lemma_resolved_references(init, labels, j);
        assert(init[j] == ins[j]);
    } else if init.len() > 0 {
        lemma_resolved_references(init, labels, 0);
    }
}


/// A successful walk over a line keeps every label already declared at the
/// address and line it was declared with, and keeps the instructions
/// already gathered.
pub proof fn lemma_walk_line_keeps(toks: Seq<TokenView>, i: int, st: AsmState, line: u16, n: Seq<char>)
    requires
        walk_line(toks, i, st, line) is Ok,
    ensures
        lookup(st.labels, n) is Some ==> lookup(walk_line(toks, i, st, line)->Ok_0.labels, n) == lookup(
            st.labels,
            n,
        ),
        walk_line(toks, i, st, line)->Ok_0.ins.len() >= st.ins.len(),
        walk_line(toks, i, st, line)->Ok_0.ins.subrange(0, st.ins.len() as int) == st.ins,
    decreases toks.len() - i,
{
    if i < 0 || i >= toks.len() {
        assert(st.ins.subrange(0, st.ins.len() as int) =~= st.ins);
    } else {
        match toks[i] {
            TokenView::Op(op) => {
                let (iv, o) = operands(op, toks, i);
                let next = if i + o + 1 > toks.len() {
                    toks.len() as int
                } else {
                    i + o + 1
                };
                let st2 = AsmState { ins: st.ins.push(iv), labels: st.labels };
                lemma_walk_line_keeps(toks, next, st2, line, n);
                let fin = walk_line(toks, next, st2, line)->Ok_0;
                assert(fin.ins.subrange(0, st.ins.len() as int) =~= fin.ins.subrange(0, st2.ins.len() as int).subrange(
                    0,
                    st.ins.len() as int,
                ));
                assert(st2.ins.subrange(0, st.ins.len() as int) =~= st.ins);
            },
            TokenView::Label(name, _) => {
                let t = declare(st.labels, name, #[verifier::truncate] ((2 * st.ins.len()) as u16), line)->Ok_0;
                let st2 = AsmState { ins: st.ins, labels: t };
                if n != name {
                    assert(t.drop_last() =~= st.labels);
                }
                lemma_walk_line_keeps(toks, i + 1, st2, line, n);
            },
            _ => {
                lemma_walk_line_keeps(toks, i + 1, st, line, n);
            },
        }
    }
}

/// A successful walk over the lines from line `k` keeps every label
/// already declared at the address and line it was declared with.
pub proof fn lemma_walk_lines_keeps(lines: Seq<Seq<char>>, k: int, st: AsmState, n: Seq<char>)
    requires
        walk_lines(lines, k, st) is Ok,
    ensures
        lookup(st.labels, n) is Some ==> lookup(walk_lines(lines, k, st)->Ok_0.labels, n) == lookup(
            st.labels,
            n,
        ),
    decreases lines.len() - k,
{
    if 0 <= k < lines.len() {
        let ln = (k % 0x10000) as u16;
        let toks = line_tokens(lines[k], ln);
        lemma_walk_line_keeps(toks, 0, st, ln, n);
        lemma_walk_lines_keeps(lines, k + 1, walk_line(toks, 0, st, ln)->Ok_0, n);
    }
}

} // verus!
