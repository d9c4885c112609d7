//! Assembly with labels, and the assembler that resolves the labels to byte
//! offsets and encodes the instructions as byte code.
use vstd::prelude::*;
use crate::bytes::{u16_bytes, u32_bytes, push_u16, push_u32, lemma_u16_roundtrip, lemma_u32_roundtrip};
use crate::tokens::Type;
use crate::text::{decimal, push_decimal, string_from};
use crate::vm::{
    RET_NUM, PUSH_NUM, POP_NUM, MOV_NUM, ADD_NUM, SUB_NUM, MUL_NUM, DIV_NUM, MOD_NUM, AND_NUM,
    OR_NUM, NOT_NUM, XOR_NUM, EQ_NUM, L_NUM, LE_NUM, G_NUM, GE_NUM, JMP_NUM, JZ_NUM, JNZ_NUM,
    CALL_NUM, FUN_NUM, inst_size,
};

verus! {

/// An instruction whose jump and call targets are byte offsets.
#[derive(Clone, Copy, Debug, PartialEq, Eq, Structural)]
pub enum NoLabelInst {
    Ret(u16),
    Push(u8, u16),
    Pop,
    Mov(u16),
    Add,
    Sub,
    Mul,
    Div,
    Mod,
    And,
    Or,
    Not,
    Xor,
    Eq,
    L,
    Le,
    G,
    Ge,
    Jmp(u32),
    Jz(u32),
    Jnz(u32),
    Call(u32),
    Fun(u16),
}

/// An instruction of the assembly; jumps and calls name labels.
#[derive(Debug, PartialEq)]
pub enum Instruction {
    Ret(u16),
    Push(u8, u16),
    Pop,
    Mov(u16),
    Add,
    Sub,
    Mul,
    Div,
    Mod,
    And,
    Or,
    Not,
    Xor,
    Eq,
    L,
    Le,
    G,
    Ge,
    Jmp(String),
    Jz(String),
    Jnz(String),
    Call(String),
    Fun(u16),
    Label(String),
}

/// An instruction with its label names seen as sequences of characters.
pub enum InstView {
    Ret(u16),
    Push(u8, u16),
    Pop,
    Mov(u16),
    Add,
    Sub,
    Mul,
    Div,
    Mod,
    And,
    Or,
    Not,
    Xor,
    Eq,
    L,
    Le,
    G,
    Ge,
    Jmp(Seq<char>),
    Jz(Seq<char>),
    Jnz(Seq<char>),
    Call(Seq<char>),
    Fun(u16),
    Label(Seq<char>),
}

impl View for Instruction {
    type V = InstView;

    open spec fn view(&self) -> InstView {
        match self {
            Instruction::Ret(x) => InstView::Ret(*x),
            Instruction::Push(x, y) => InstView::Push(*x, *y),
            Instruction::Pop => InstView::Pop,
            Instruction::Mov(x) => InstView::Mov(*x),
            Instruction::Add => InstView::Add,
            Instruction::Sub => InstView::Sub,
            Instruction::Mul => InstView::Mul,
            Instruction::Div => InstView::Div,
            Instruction::Mod => InstView::Mod,
            Instruction::And => InstView::And,
            Instruction::Or => InstView::Or,
            Instruction::Not => InstView::Not,
            Instruction::Xor => InstView::Xor,
            Instruction::Eq => InstView::Eq,
            Instruction::L => InstView::L,
            Instruction::Le => InstView::Le,
            Instruction::G => InstView::G,
            Instruction::Ge => InstView::Ge,
            Instruction::Jmp(s) => InstView::Jmp(s@),
            Instruction::Jz(s) => InstView::Jz(s@),
            Instruction::Jnz(s) => InstView::Jnz(s@),
            Instruction::Call(s) => InstView::Call(s@),
            Instruction::Fun(x) => InstView::Fun(*x),
            Instruction::Label(s) => InstView::Label(s@),
        }
    }
}

/// A sequence of instructions seen with their label names as sequences.
pub open spec fn insts_view(s: Seq<Instruction>) -> Seq<InstView> {
    s.map_values(|i: Instruction| i@)
}

/// Size in bytes of the instruction's encoding; a label takes none.
pub open spec fn spec_inst_size(i: InstView) -> nat {
    match i {
        InstView::Ret(_) => 3,
        InstView::Push(_, _) => 4,
        InstView::Mov(_) => 3,
        InstView::Jmp(_) => 5,
        InstView::Jz(_) => 5,
        InstView::Jnz(_) => 5,
        InstView::Call(_) => 5,
        InstView::Fun(_) => 3,
        InstView::Label(_) => 0,
        _ => 1,
    }
}

impl Instruction {
    /// Size in bytes of the instruction's encoding.
    pub fn size(&self) -> (r: u32)
        ensures
            r == spec_inst_size(self@),
    {
        match self {
            Instruction::Ret(_) => 3,
            Instruction::Push(_, _) => 4,
            Instruction::Pop => 1,
            Instruction::Mov(_) => 3,
            Instruction::Add => 1,
            Instruction::Sub => 1,
            Instruction::Mul => 1,
            Instruction::Div => 1,
            Instruction::Mod => 1,
            Instruction::And => 1,
            Instruction::Or => 1,
            Instruction::Not => 1,
            Instruction::Xor => 1,
            Instruction::Eq => 1,
            Instruction::L => 1,
            Instruction::Le => 1,
            Instruction::G => 1,
            Instruction::Ge => 1,
            Instruction::Jmp(_) => 5,
            Instruction::Jz(_) => 5,
            Instruction::Jnz(_) => 5,
            Instruction::Call(_) => 5,
            Instruction::Fun(_) => 3,
            Instruction::Label(_) => 0,
        }
    }

    /// A copy of the instruction.
    pub fn duplicate(&self) -> (r: Instruction)
        ensures
            r == *self,
    {
        match self {
            Instruction::Ret(x) => Instruction::Ret(*x),
            Instruction::Push(x, y) => Instruction::Push(*x, *y),
            Instruction::Pop => Instruction::Pop,
            Instruction::Mov(x) => Instruction::Mov(*x),
            Instruction::Add => Instruction::Add,
            Instruction::Sub => Instruction::Sub,
            Instruction::Mul => Instruction::Mul,
            Instruction::Div => Instruction::Div,
            Instruction::Mod => Instruction::Mod,
            Instruction::And => Instruction::And,
            Instruction::Or => Instruction::Or,
            Instruction::Not => Instruction::Not,
            Instruction::Xor => Instruction::Xor,
            Instruction::Eq => Instruction::Eq,
            Instruction::L => Instruction::L,
            Instruction::Le => Instruction::Le,
            Instruction::G => Instruction::G,
            Instruction::Ge => Instruction::Ge,
            Instruction::Jmp(s) => Instruction::Jmp(s.clone()),
            Instruction::Jz(s) => Instruction::Jz(s.clone()),
            Instruction::Jnz(s) => Instruction::Jnz(s.clone()),
            Instruction::Call(s) => Instruction::Call(s.clone()),
            Instruction::Fun(x) => Instruction::Fun(*x),
            Instruction::Label(s) => Instruction::Label(s.clone()),
        }
    }
}

/// The byte code of one instruction: its opcode, then its operands in
/// little-endian order.
pub open spec fn encode_inst(i: NoLabelInst) -> Seq<u8> {
    match i {
        NoLabelInst::Ret(x) => seq![RET_NUM] + u16_bytes(x),
        NoLabelInst::Push(x, y) => seq![PUSH_NUM, x] + u16_bytes(y),
        NoLabelInst::Pop => seq![POP_NUM],
        NoLabelInst::Mov(x) => seq![MOV_NUM] + u16_bytes(x),
        NoLabelInst::Add => seq![ADD_NUM],
        NoLabelInst::Sub => seq![SUB_NUM],
        NoLabelInst::Mul => seq![MUL_NUM],
        NoLabelInst::Div => seq![DIV_NUM],
        NoLabelInst::Mod => seq![MOD_NUM],
        NoLabelInst::And => seq![AND_NUM],
        NoLabelInst::Or => seq![OR_NUM],
        NoLabelInst::Not => seq![NOT_NUM],
        NoLabelInst::Xor => seq![XOR_NUM],
        NoLabelInst::Eq => seq![EQ_NUM],
        NoLabelInst::L => seq![L_NUM],
        NoLabelInst::Le => seq![LE_NUM],
        NoLabelInst::G => seq![G_NUM],
        NoLabelInst::Ge => seq![GE_NUM],
        NoLabelInst::Jmp(x) => seq![JMP_NUM] + u32_bytes(x),
        NoLabelInst::Jz(x) => seq![JZ_NUM] + u32_bytes(x),
        NoLabelInst::Jnz(x) => seq![JNZ_NUM] + u32_bytes(x),
        NoLabelInst::Call(x) => seq![CALL_NUM] + u32_bytes(x),
        NoLabelInst::Fun(x) => seq![FUN_NUM] + u16_bytes(x),
    }
}

/// Byte offset at which instruction `k` of `code` starts.
pub open spec fn offset_before(code: Seq<InstView>, k: int) -> nat
    decreases k,
{
    if k <= 0 || k > code.len() {
        0
    } else {
        offset_before(code, k - 1) + spec_inst_size(code[k - 1])
    }
}

/// Index in `code[..k]` of the last label named `name`.
pub open spec fn last_label_before(code: Seq<InstView>, name: Seq<char>, k: int) -> Option<int>
    decreases k,
{
    if k <= 0 || k > code.len() {
        None
    } else if code[k - 1] matches InstView::Label(n) && n == name {
        Some(k - 1)
    } else {
        last_label_before(code, name, k - 1)
    }
}

/// The byte offset of the label `name`: where its last definition stands.
pub open spec fn label_target(code: Seq<InstView>, name: Seq<char>) -> Option<nat> {
    match last_label_before(code, name, code.len() as int) {
        Some(j) => Some(offset_before(code, j)),
        None => None,
    }
}

/// Every jump and call of `code` names a label that `code` defines.
pub open spec fn labels_resolve(code: Seq<InstView>) -> bool {
    forall|k: int|
        0 <= k < code.len() ==> match #[trigger] code[k] {
            InstView::Jmp(s) => label_target(code, s) is Some,
            InstView::Jz(s) => label_target(code, s) is Some,
            InstView::Jnz(s) => label_target(code, s) is Some,
            InstView::Call(s) => label_target(code, s) is Some,
            _ => true,
        }
}

/// The instruction with its label resolved to a byte offset in `code`.
pub open spec fn resolve(code: Seq<InstView>, i: InstView) -> NoLabelInst {
    match i {
        InstView::Ret(x) => NoLabelInst::Ret(x),
        InstView::Push(x, y) => NoLabelInst::Push(x, y),
        InstView::Pop => NoLabelInst::Pop,
        InstView::Mov(x) => NoLabelInst::Mov(x),
        InstView::Add => NoLabelInst::Add,
        InstView::Sub => NoLabelInst::Sub,
        InstView::Mul => NoLabelInst::Mul,
        InstView::Div => NoLabelInst::Div,
        InstView::Mod => NoLabelInst::Mod,
        InstView::And => NoLabelInst::And,
        InstView::Or => NoLabelInst::Or,
        InstView::Not => NoLabelInst::Not,
        InstView::Xor => NoLabelInst::Xor,
        InstView::Eq => NoLabelInst::Eq,
        InstView::L => NoLabelInst::L,
        InstView::Le => NoLabelInst::Le,
        InstView::G => NoLabelInst::G,
        InstView::Ge => NoLabelInst::Ge,
        InstView::Jmp(s) => NoLabelInst::Jmp(label_target(code, s).unwrap() as u32),
        InstView::Jz(s) => NoLabelInst::Jz(label_target(code, s).unwrap() as u32),
        InstView::Jnz(s) => NoLabelInst::Jnz(label_target(code, s).unwrap() as u32),
        InstView::Call(s) => NoLabelInst::Call(label_target(code, s).unwrap() as u32),
        InstView::Fun(x) => NoLabelInst::Fun(x),
        InstView::Label(_) => NoLabelInst::Pop,
    }
}

/// The instructions of `code[..k]` other than labels, with their labels
/// resolved in `code`.
pub open spec fn resolved_prefix(code: Seq<InstView>, k: int) -> Seq<NoLabelInst>
    decreases k,
{
    if k <= 0 || k > code.len() {
        Seq::empty()
    } else if code[k - 1] is Label {
        resolved_prefix(code, k - 1)
    } else {
        resolved_prefix(code, k - 1).push(resolve(code, code[k - 1]))
    }
}

/// The byte code of a sequence of label-free instructions.
pub open spec fn encode_all(insts: Seq<NoLabelInst>) -> Seq<u8>
    decreases insts.len(),
{
    if insts.len() == 0 {
        Seq::empty()
    } else {
        encode_all(insts.drop_last()) + encode_inst(insts.last())
    }
}

/// The byte code of the assembly `code`.
pub open spec fn assembled(code: Seq<InstView>) -> Seq<u8> {
    encode_all(resolved_prefix(code, code.len() as int))
}

} // verus!

verus! {

pub proof fn lemma_offset_monotone(code: Seq<InstView>, j: int, k: int)
    requires
        0 <= j <= k <= code.len(),
    ensures
        offset_before(code, j) <= offset_before(code, k),
    decreases k - j,
{
    if j < k {
        lemma_offset_monotone(code, j, k - 1);
    }
}

pub proof fn lemma_last_label_range(code: Seq<InstView>, name: Seq<char>, k: int)
    ensures
        last_label_before(code, name, k) matches Some(j) ==> 0 <= j < k && j < code.len() && (
        code[j] matches InstView::Label(n) && n == name),
    decreases k,
{
    if 0 < k <= code.len() {
        lemma_last_label_range(code, name, k - 1);
    }
}

/// Index of the last definition of the label `name` in `code`.
fn find_label(code: &Vec<Instruction>, name: &String) -> (r: Option<usize>)
    ensures
        r matches Some(j) ==> j < code@.len(),
        match last_label_before(insts_view(code@), name@, code@.len() as int) {
            Some(j) => r == Some(j as usize),
            None => r is None,
        },
{
    let mut k = code.len();
    while k > 0
        invariant
            k <= code@.len(),
            last_label_before(insts_view(code@), name@, code@.len() as int) == last_label_before(
                insts_view(code@),
                name@,
                k as int,
            ),
        decreases k,
    {
        if let Instruction::Label(n) = &code[k - 1] {
            if n.eq(name) {
                return Some(k - 1);
            }
        }
        k = k - 1;
    }
    None
}

/// The byte offset of the label `s`, given the offset of every
/// instruction.
fn lookup_target(code: &Vec<Instruction>, offs: &Vec<u32>, s: &String) -> (r: u32)
    requires
        label_target(insts_view(code@), s@) is Some,
        offs@.len() == code@.len(),
        offset_before(insts_view(code@), code@.len() as int) <= u32::MAX,
        forall|j: int| 0 <= j < code@.len() ==> offs@[j] == offset_before(insts_view(code@), j),
    ensures
        r == label_target(insts_view(code@), s@).unwrap() as u32,
{
    let n = code.len();
    proof {
        lemma_last_label_range(insts_view(code@), s@, code@.len() as int);
    }
    match find_label(code, s) {
        Some(j) => {
            proof {
                lemma_offset_monotone(insts_view(code@), j as int, code@.len() as int);
            }
            offs[j]
        },
        None => 0,
    }
}

/// The byte code of one instruction.
pub fn encode_into(bc: &mut Vec<u8>, inst: NoLabelInst)
    ensures
        final(bc)@ == old(bc)@ + encode_inst(inst),
{
    match inst {
        NoLabelInst::Ret(x) => {
            bc.push(RET_NUM);
            push_u16(bc, x);
        },
        NoLabelInst::Push(x, y) => {
            bc.push(PUSH_NUM);
            bc.push(x);
            push_u16(bc, y);
        },
        NoLabelInst::Pop => bc.push(POP_NUM),
        NoLabelInst::Mov(x) => {
            bc.push(MOV_NUM);
            push_u16(bc, x);
        },
        NoLabelInst::Add => bc.push(ADD_NUM),
        NoLabelInst::Sub => bc.push(SUB_NUM),
        NoLabelInst::Mul => bc.push(MUL_NUM),
        NoLabelInst::Div => bc.push(DIV_NUM),
        NoLabelInst::Mod => bc.push(MOD_NUM),
        NoLabelInst::And => bc.push(AND_NUM),
        NoLabelInst::Or => bc.push(OR_NUM),
        NoLabelInst::Not => bc.push(NOT_NUM),
        NoLabelInst::Xor => bc.push(XOR_NUM),
        NoLabelInst::Eq => bc.push(EQ_NUM),
        NoLabelInst::L => bc.push(L_NUM),
        NoLabelInst::Le => bc.push(LE_NUM),
        NoLabelInst::G => bc.push(G_NUM),
        NoLabelInst::Ge => bc.push(GE_NUM),
        NoLabelInst::Jmp(x) => {
            bc.push(JMP_NUM);
            push_u32(bc, x);
        },
        NoLabelInst::Jz(x) => {
            bc.push(JZ_NUM);
            push_u32(bc, x);
        },
        NoLabelInst::Jnz(x) => {
            bc.push(JNZ_NUM);
            push_u32(bc, x);
        },
        NoLabelInst::Call(x) => {
            bc.push(CALL_NUM);
            push_u32(bc, x);
        },
        NoLabelInst::Fun(x) => {
            bc.push(FUN_NUM);
            push_u16(bc, x);
        },
    }
    assert(final(bc)@ =~= old(bc)@ + encode_inst(inst));
}

/// Turns assembly into byte code, together with the constant and string
/// pools that the byte code refers to.
pub struct Assembler {
    consts: Vec<u8>,
    pool: Vec<String>,
    code: Vec<Instruction>,
}

impl Assembler {
    pub closed spec fn code_view(&self) -> Seq<InstView> {
        insts_view(self.code@)
    }

    pub closed spec fn consts_view(&self) -> Seq<u8> {
        self.consts@
    }

    pub closed spec fn pool_view(&self) -> Seq<String> {
        self.pool@
    }

    /// The code can be assembled: its labels resolve and its byte code fits
    /// in 32-bit offsets.
    pub open spec fn assemblable(&self) -> bool {
        &&& labels_resolve(self.code_view())
        &&& offset_before(self.code_view(), self.code_view().len() as int) <= u32::MAX
    }

    pub fn new(consts: Vec<u8>, pool: Vec<String>, code: Vec<Instruction>) -> (r: Self)
        ensures
            r.consts_view() == consts@,
            r.pool_view() == pool@,
            r.code_view() == insts_view(code@),
    {
        Assembler { consts, pool, code }
    }

    /// The constant pool and the string pool.
    pub fn extract_consts_and_pool(&self) -> (r: (&Vec<u8>, &Vec<String>))
        ensures
            r.0@ == self.consts_view(),
            r.1@ == self.pool_view(),
    {
        (&self.consts, &self.pool)
    }

    /// The instructions other than labels, with each label replaced by the
    /// byte offset where it stands.
    fn real_rm_labels(&self) -> (r: Vec<NoLabelInst>)
        requires
            self.assemblable(),
        ensures
            r@ == resolved_prefix(insts_view(self.code@), self.code@.len() as int),
    {
        let n = self.code.len();
        let mut offs: Vec<u32> = Vec::new();
        let mut cur: u32 = 0;
        let mut k: usize = 0;
        while k < n
            invariant
                n == self.code@.len(),
                k <= n,
                offs@.len() == k,
                cur == offset_before(insts_view(self.code@), k as int),
                offset_before(insts_view(self.code@), n as int) <= u32::MAX,
                forall|j: int| 0 <= j < k ==> offs@[j] == offset_before(insts_view(self.code@), j),
            decreases n - k,
        {
            offs.push(cur);
            proof {
                lemma_offset_monotone(insts_view(self.code@), k + 1, n as int);
            }
            cur = cur + self.code[k].size();
            k = k + 1;
        }
        let mut out: Vec<NoLabelInst> = Vec::new();
        let mut k: usize = 0;
        while k < n
            invariant
                n == self.code@.len(),
                k <= n,
                offs@.len() == n,
                self.assemblable(),
                forall|j: int| 0 <= j < n ==> offs@[j] == offset_before(insts_view(self.code@), j),
                out@ == resolved_prefix(insts_view(self.code@), k as int),
            decreases n - k,
        {
            let inst = &self.code[k];
            proof {
                assert(insts_view(self.code@)[k as int] == self.code@[k as int]@);
            }
            let target: u32 = match inst {
                Instruction::Jmp(s) => lookup_target(&self.code, &offs, s),
                Instruction::Jz(s) => lookup_target(&self.code, &offs, s),
                Instruction::Jnz(s) => lookup_target(&self.code, &offs, s),
                Instruction::Call(s) => lookup_target(&self.code, &offs, s),
                _ => 0,
            };
            let resolved = match inst {
                Instruction::Ret(x) => Some(NoLabelInst::Ret(*x)),
                Instruction::Push(x, y) => Some(NoLabelInst::Push(*x, *y)),
                Instruction::Pop => Some(NoLabelInst::Pop),
                Instruction::Mov(x) => Some(NoLabelInst::Mov(*x)),
                Instruction::Add => Some(NoLabelInst::Add),
                Instruction::Sub => Some(NoLabelInst::Sub),
                Instruction::Mul => Some(NoLabelInst::Mul),
                Instruction::Div => Some(NoLabelInst::Div),
                Instruction::Mod => Some(NoLabelInst::Mod),
                Instruction::And => Some(NoLabelInst::And),
                Instruction::Or => Some(NoLabelInst::Or),
                Instruction::Not => Some(NoLabelInst::Not),
                Instruction::Xor => Some(NoLabelInst::Xor),
                Instruction::Eq => Some(NoLabelInst::Eq),
                Instruction::L => Some(NoLabelInst::L),
                Instruction::Le => Some(NoLabelInst::Le),
                Instruction::G => Some(NoLabelInst::G),
                Instruction::Ge => Some(NoLabelInst::Ge),
                Instruction::Jmp(_) => Some(NoLabelInst::Jmp(target)),
                Instruction::Jz(_) => Some(NoLabelInst::Jz(target)),
                Instruction::Jnz(_) => Some(NoLabelInst::Jnz(target)),
                Instruction::Call(_) => Some(NoLabelInst::Call(target)),
                Instruction::Fun(x) => Some(NoLabelInst::Fun(*x)),
                Instruction::Label(_) => None,
            };
            proof {
                match self.code@[k as int]@ {
                    InstView::Jmp(s) => {
                        assert(target == label_target(insts_view(self.code@), s).unwrap() as u32);
                    },
                    InstView::Jz(s) => {
                        assert(target == label_target(insts_view(self.code@), s).unwrap() as u32);
                    },
                    InstView::Jnz(s) => {
                        assert(target == label_target(insts_view(self.code@), s).unwrap() as u32);
                    },
                    InstView::Call(s) => {
                        assert(target == label_target(insts_view(self.code@), s).unwrap() as u32);
                    },
                    _ => {},
                }
                if self.code@[k as int]@ is Label {
                    assert(resolved is None);
                } else {
                    assert(resolved == Some(resolve(insts_view(self.code@), self.code@[k as int]@)));
                }
            }
            if let Some(r) = resolved {
                out.push(r);
            }
            k = k + 1;
        }
        out
    }

    /// Whether the code can be assembled: see [`Assembler::assemblable`].
    pub fn can_assemble(&self) -> (r: bool)
        ensures
            r == self.assemblable(),
    {
        let ghost cv = insts_view(self.code@);
        let n = self.code.len();
        let mut total: u64 = 0;
        let mut k: usize = 0;
        while k < n
            invariant
                k <= n,
                n == self.code@.len(),
                cv == insts_view(self.code@),
                total == offset_before(cv, k as int),
                total <= u32::MAX,
            decreases n - k,
        {
            total = total + self.code[k].size() as u64;
            if total > u32::MAX as u64 {
                proof {
                    lemma_offset_monotone(cv, k + 1, n as int);
                }
                return false;
            }
            k = k + 1;
        }
        let mut k: usize = 0;
        while k < n
            invariant
                k <= n,
                n == self.code@.len(),
                cv == insts_view(self.code@),
                offset_before(cv, n as int) <= u32::MAX,
                forall|j: int|
                    0 <= j < k ==> match #[trigger] cv[j] {
                        InstView::Jmp(s) => label_target(cv, s) is Some,
                        InstView::Jz(s) => label_target(cv, s) is Some,
                        InstView::Jnz(s) => label_target(cv, s) is Some,
                        InstView::Call(s) => label_target(cv, s) is Some,
                        _ => true,
                    },
            decreases n - k,
        {
            proof {
                assert(cv[k as int] == self.code@[k as int]@);
            }
            let found = match &self.code[k] {
                Instruction::Jmp(s) => find_label(&self.code, s).is_some(),
                Instruction::Jz(s) => find_label(&self.code, s).is_some(),
                Instruction::Jnz(s) => find_label(&self.code, s).is_some(),
                Instruction::Call(s) => find_label(&self.code, s).is_some(),
                _ => true,
            };
            if !found {
                return false;
            }
            k = k + 1;
        }
        true
    }

    /// Assembles the code where it can be assembled; `None` where a jump
    /// or call names a label that the code does not define, or the byte
    /// code outgrows 32-bit offsets.
    pub fn assemble_checked(self) -> (r: Option<(Vec<u8>, Vec<String>, Vec<u8>)>)
        ensures
            r is None <==> !self.assemblable(),
            r matches Some(t) ==> t.0@ == self.consts_view() && t.1@ == self.pool_view() && t.2@
                == assembled(self.code_view()),
    {
        if self.can_assemble() {
            Some(self.assemble())
        } else {
            None
        }
    }

    /// Assembles the code: returns the constant pool, the string pool and
    /// the byte code.
    pub fn assemble(self) -> (r: (Vec<u8>, Vec<String>, Vec<u8>))
        requires
            self.assemblable(),
        ensures
            r.0@ == self.consts_view(),
            r.1@ == self.pool_view(),
            r.2@ == assembled(self.code_view()),
    {
        let no_labels = self.real_rm_labels();
        let mut bc: Vec<u8> = Vec::new();
        let mut i: usize = 0;
        while i < no_labels.len()
            invariant
                i <= no_labels@.len(),
                bc@ == encode_all(no_labels@.take(i as int)),
            decreases no_labels@.len() - i,
        {
            proof {
                assert(no_labels@.take(i + 1).drop_last() =~= no_labels@.take(i as int));
            }
            encode_into(&mut bc, no_labels[i]);
            i = i + 1;
        }
        assert(no_labels@.take(no_labels@.len() as int) =~= no_labels@);
        (self.consts, self.pool, bc)
    }
}

} // verus!

verus! {

/// The text of an instruction: its mnemonic, then each operand after a
/// space.
pub open spec fn inst_text(i: InstView) -> Seq<char> {
    match i {
        InstView::Ret(x) => "ret"@ + " "@ + decimal(x as nat),
        InstView::Push(x, y) => "push"@ + " "@ + decimal(x as nat) + " "@ + decimal(y as nat),
        InstView::Pop => "pop"@,
        InstView::Mov(x) => "mov"@ + " "@ + decimal(x as nat),
        InstView::Add => "add"@,
        InstView::Sub => "sub"@,
        InstView::Mul => "mul"@,
        InstView::Div => "div"@,
        InstView::Mod => "mod"@,
        InstView::And => "and"@,
        InstView::Or => "or"@,
        InstView::Not => "not"@,
        InstView::Xor => "xor"@,
        InstView::Eq => "eq"@,
        InstView::L => "l"@,
        InstView::Le => "le"@,
        InstView::G => "g"@,
        InstView::Ge => "ge"@,
        InstView::Jmp(s) => "jmp"@ + " "@ + s,
        InstView::Jz(s) => "jz"@ + " "@ + s,
        InstView::Jnz(s) => "jnz"@ + " "@ + s,
        InstView::Call(s) => "call"@ + " "@ + s,
        InstView::Label(s) => "label"@ + " "@ + s,
        InstView::Fun(x) => "fun"@ + " "@ + decimal(x as nat),
    }
}

impl Instruction {
    /// The text of the instruction: see [`inst_text`].
    pub fn text(&self) -> (r: String)
        ensures
            r@ == inst_text(self@),
    {
        match self {
            Instruction::Ret(x) => {
                let mut s = string_from("ret");
                s.append(" ");
                push_decimal(&mut s, *x as u64);
                s
            },
            Instruction::Push(x, y) => {
                let mut s = string_from("push");
                s.append(" ");
                push_decimal(&mut s, *x as u64);
                s.append(" ");
                push_decimal(&mut s, *y as u64);
                s
            },
            Instruction::Pop => string_from("pop"),
            Instruction::Mov(x) => {
                let mut s = string_from("mov");
                s.append(" ");
                push_decimal(&mut s, *x as u64);
                s
            },
            Instruction::Add => string_from("add"),
            Instruction::Sub => string_from("sub"),
            Instruction::Mul => string_from("mul"),
            Instruction::Div => string_from("div"),
            Instruction::Mod => string_from("mod"),
            Instruction::And => string_from("and"),
            Instruction::Or => string_from("or"),
            Instruction::Not => string_from("not"),
            Instruction::Xor => string_from("xor"),
            Instruction::Eq => string_from("eq"),
            Instruction::L => string_from("l"),
            Instruction::Le => string_from("le"),
            Instruction::G => string_from("g"),
            Instruction::Ge => string_from("ge"),
            Instruction::Jmp(l) => {
                let mut s = string_from("jmp");
                s.append(" ");
                s.append(l.as_str());
                s
            },
            Instruction::Jz(l) => {
                let mut s = string_from("jz");
                s.append(" ");
                s.append(l.as_str());
                s
            },
            Instruction::Jnz(l) => {
                let mut s = string_from("jnz");
                s.append(" ");
                s.append(l.as_str());
                s
            },
            Instruction::Call(l) => {
                let mut s = string_from("call");
                s.append(" ");
                s.append(l.as_str());
                s
            },
            Instruction::Label(l) => {
                let mut s = string_from("label");
                s.append(" ");
                s.append(l.as_str());
                s
            },
            Instruction::Fun(x) => {
                let mut s = string_from("fun");
                s.append(" ");
                push_decimal(&mut s, *x as u64);
                s
            },
        }
    }
}

} // verus!

verus! {

/// The encoding of an instruction is as long as its size, and the machine
/// reads its opcode as an instruction of that length.
pub proof fn law_encoding_size(code: Seq<InstView>, i: InstView)
    requires
        !(i is Label),
    ensures
        encode_inst(resolve(code, i)).len() == spec_inst_size(i),
        inst_size(encode_inst(resolve(code, i))[0]) == Some(spec_inst_size(i)),
{
}

proof fn lemma_encoded_prefix_len(code: Seq<InstView>, k: int)
    requires
        0 <= k <= code.len(),
    ensures
        encode_all(resolved_prefix(code, k)).len() == offset_before(code, k),
    decreases k,
{
    if k > 0 {
        lemma_encoded_prefix_len(code, k - 1);
        if !(code[k - 1] is Label) {
            let prev = resolved_prefix(code, k - 1);
            let x = resolve(code, code[k - 1]);
            assert(prev.push(x).drop_last() =~= prev);
            law_encoding_size(code, code[k - 1]);
        }
    }
}

/// The byte code of a program is as long as the sum of the sizes of its
/// instructions, so each label's offset is where its instruction starts.
pub proof fn law_assembled_length(code: Seq<InstView>)
    ensures
        assembled(code).len() == offset_before(code, code.len() as int),
{
    lemma_encoded_prefix_len(code, code.len() as int);
}

proof fn lemma_encoded_prefix(code: Seq<InstView>, j: int, k: int)
    requires
        0 <= j <= k <= code.len(),
    ensures
        encode_all(resolved_prefix(code, k)).subrange(0, offset_before(code, j) as int)
            == encode_all(resolved_prefix(code, j)),
    decreases k - j,
{
    lemma_encoded_prefix_len(code, k);
    lemma_encoded_prefix_len(code, j);
    let ek = encode_all(resolved_prefix(code, k));
    if j == k {
        assert(ek.subrange(0, ek.len() as int) =~= ek);
    } else {
        lemma_encoded_prefix(code, j, k - 1);
        lemma_encoded_prefix_len(code, k - 1);
        lemma_offset_monotone(code, j, k - 1);
        if !(code[k - 1] is Label) {
            let prev = resolved_prefix(code, k - 1);
            let x = resolve(code, code[k - 1]);
            assert(prev.push(x).drop_last() =~= prev);
            let e1 = encode_all(prev);
            assert(ek == e1 + encode_inst(x));
            assert(ek.subrange(0, offset_before(code, j) as int) =~= e1.subrange(
                0,
                offset_before(code, j) as int,
            ));
        }
    }
}

/// In the byte code, each instruction's encoding starts at the sum of the
/// sizes of the instructions before it, with its labels resolved.
pub proof fn law_instruction_offset(code: Seq<InstView>, i: int)
    requires
        0 <= i < code.len(),
        !(code[i] is Label),
    ensures
        assembled(code).subrange(offset_before(code, i) as int, offset_before(code, i + 1) as int)
            == encode_inst(resolve(code, code[i])),
{
    lemma_encoded_prefix(code, i + 1, code.len() as int);
    lemma_encoded_prefix_len(code, i);
    law_encoding_size(code, code[i]);
    let prev = resolved_prefix(code, i);
    let x = resolve(code, code[i]);
    assert(prev.push(x).drop_last() =~= prev);
    let e1 = encode_all(resolved_prefix(code, i + 1));
    assert(e1 == encode_all(prev) + encode_inst(x));
    let a = offset_before(code, i) as int;
    let b = offset_before(code, i + 1) as int;
    lemma_encoded_prefix_len(code, code.len() as int);
    lemma_encoded_prefix_len(code, i + 1);
    lemma_offset_monotone(code, i + 1, code.len() as int);
    let full = assembled(code);
    assert(full.subrange(0, b) == e1);
    assert forall|k: int| 0 <= k < b - a implies #[trigger] full.subrange(a, b)[k] == e1.subrange(
        a,
        b,
    )[k] by {
        assert(full.subrange(0, b)[a + k] == full[a + k]);
    }
    assert(full.subrange(a, b) =~= e1.subrange(a, b));
    assert(e1.subrange(a, b) =~= encode_inst(x));
}

/// The opcode that starts each instruction's encoding: the byte-code
/// numbering, `ret` 1 through `fun` 23 in the order the instructions are
/// declared (`div` is 8, `mod` 9, `l` 15, `le` 16, `g` 17, `ge` 18).
pub proof fn law_opcodes(i: NoLabelInst)
    ensures
        i is Ret ==> encode_inst(i)[0] == 1u8,
        i is Push ==> encode_inst(i)[0] == 2u8,
        i is Pop ==> encode_inst(i)[0] == 3u8,
        i is Mov ==> encode_inst(i)[0] == 4u8,
        i is Add ==> encode_inst(i)[0] == 5u8,
        i is Sub ==> encode_inst(i)[0] == 6u8,
        i is Mul ==> encode_inst(i)[0] == 7u8,
        i is Div ==> encode_inst(i)[0] == 8u8,
        i is Mod ==> encode_inst(i)[0] == 9u8,
        i is And ==> encode_inst(i)[0] == 10u8,
        i is Or ==> encode_inst(i)[0] == 11u8,
        i is Not ==> encode_inst(i)[0] == 12u8,
        i is Xor ==> encode_inst(i)[0] == 13u8,
        i is Eq ==> encode_inst(i)[0] == 14u8,
        i is L ==> encode_inst(i)[0] == 15u8,
        i is Le ==> encode_inst(i)[0] == 16u8,
        i is G ==> encode_inst(i)[0] == 17u8,
        i is Ge ==> encode_inst(i)[0] == 18u8,
        i is Jmp ==> encode_inst(i)[0] == 19u8,
        i is Jz ==> encode_inst(i)[0] == 20u8,
        i is Jnz ==> encode_inst(i)[0] == 21u8,
        i is Call ==> encode_inst(i)[0] == 22u8,
        i is Fun ==> encode_inst(i)[0] == 23u8,
{
}

/// Distinct kinds of instruction start with distinct opcodes, so the
/// machine can tell every instruction from its first byte.
pub proof fn law_opcodes_distinct(i: NoLabelInst, j: NoLabelInst)
    ensures
        encode_inst(i)[0] == encode_inst(j)[0] ==> (i is Ret <==> j is Ret),
        encode_inst(i)[0] == encode_inst(j)[0] ==> (i is Push <==> j is Push),
        encode_inst(i)[0] == encode_inst(j)[0] ==> (i is Pop <==> j is Pop),
        encode_inst(i)[0] == encode_inst(j)[0] ==> (i is Mov <==> j is Mov),
        encode_inst(i)[0] == encode_inst(j)[0] ==> (i is Add <==> j is Add),
        encode_inst(i)[0] == encode_inst(j)[0] ==> (i is Sub <==> j is Sub),
        encode_inst(i)[0] == encode_inst(j)[0] ==> (i is Mul <==> j is Mul),
        encode_inst(i)[0] == encode_inst(j)[0] ==> (i is Div <==> j is Div),
        encode_inst(i)[0] == encode_inst(j)[0] ==> (i is Mod <==> j is Mod),
        encode_inst(i)[0] == encode_inst(j)[0] ==> (i is And <==> j is And),
        encode_inst(i)[0] == encode_inst(j)[0] ==> (i is Or <==> j is Or),
        encode_inst(i)[0] == encode_inst(j)[0] ==> (i is Not <==> j is Not),
        encode_inst(i)[0] == encode_inst(j)[0] ==> (i is Xor <==> j is Xor),
        encode_inst(i)[0] == encode_inst(j)[0] ==> (i is Eq <==> j is Eq),
        encode_inst(i)[0] == encode_inst(j)[0] ==> (i is L <==> j is L),
        encode_inst(i)[0] == encode_inst(j)[0] ==> (i is Le <==> j is Le),
        encode_inst(i)[0] == encode_inst(j)[0] ==> (i is G <==> j is G),
        encode_inst(i)[0] == encode_inst(j)[0] ==> (i is Ge <==> j is Ge),
        encode_inst(i)[0] == encode_inst(j)[0] ==> (i is Jmp <==> j is Jmp),
        encode_inst(i)[0] == encode_inst(j)[0] ==> (i is Jz <==> j is Jz),
        encode_inst(i)[0] == encode_inst(j)[0] ==> (i is Jnz <==> j is Jnz),
        encode_inst(i)[0] == encode_inst(j)[0] ==> (i is Call <==> j is Call),
        encode_inst(i)[0] == encode_inst(j)[0] ==> (i is Fun <==> j is Fun),
{
}

} // verus!
