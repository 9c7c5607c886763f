use vstd::prelude::*;

use crate::isa::{Instruction, InstructionView, Operand, OperandView, Program, Stmt, StmtView};

verus! {

// ---------------------------------------------------------------------------
// Address assignment
// ---------------------------------------------------------------------------

/// How many of the first `k` statements are instructions.  This is the
/// address the resolver assigns: an instruction at statement index `k` gets
/// address `instr_count(ss, k)`, and a label declared at statement index `k`
/// points at address `instr_count(ss, k)`, the address of the next
/// instruction after it.
pub open spec fn instr_count(ss: Seq<StmtView>, k: int) -> int
    decreases k,
{
    if k <= 0 {
        0
    } else {
        instr_count(ss, k - 1) + if ss[k - 1] is Instr {
            1int
        } else {
            0int
        }
    }
}

pub proof fn lemma_instr_count_mono(ss: Seq<StmtView>, j: int, k: int)
    requires
        0 <= j <= k,
    ensures
        instr_count(ss, j) <= instr_count(ss, k) <= instr_count(ss, j) + (k - j),
    decreases k - j,
{
    if j < k {
        lemma_instr_count_mono(ss, j, k - 1);
    }
}

pub proof fn lemma_instr_count_range(ss: Seq<StmtView>, k: int)
    requires
        0 <= k,
    ensures
        0 <= instr_count(ss, k) <= k,
{
    lemma_instr_count_mono(ss, 0, k);
}

/// The instructions among the statements from index `k` on, in order.
pub open spec fn instrs_from(ss: Seq<StmtView>, k: int) -> Seq<InstructionView>
    decreases ss.len() - k,
{
    if !(0 <= k < ss.len()) {
        seq![]
    } else {
        let rest = instrs_from(ss, k + 1);
        match ss[k] {
            StmtView::Instr(i) => seq![i] + rest,
            _ => rest,
        }
    }
}

/// The instruction sequence of a program: its instructions in source order.
pub open spec fn spec_instrs(ss: Seq<StmtView>) -> Seq<InstructionView> {
    instrs_from(ss, 0)
}

pub proof fn lemma_instrs_from_len(ss: Seq<StmtView>, k: int)
    requires
        0 <= k <= ss.len(),
    ensures
        instrs_from(ss, k).len() == instr_count(ss, ss.len() as int) - instr_count(ss, k),
    decreases ss.len() - k,
{
    if k < ss.len() {
        lemma_instrs_from_len(ss, k + 1);
    }
}

proof fn lemma_instr_at_address_from(ss: Seq<StmtView>, j: int, k: int)
    requires
        0 <= j <= k < ss.len(),
        ss[k] is Instr,
    ensures
        0 <= instr_count(ss, k) - instr_count(ss, j) < instrs_from(ss, j).len(),
        instrs_from(ss, j)[instr_count(ss, k) - instr_count(ss, j)] == ss[k]->Instr_0,
    decreases k - j,
{
    lemma_instr_count_mono(ss, j, k);
    lemma_instr_count_mono(ss, k + 1, ss.len() as int);
    lemma_instrs_from_len(ss, j);
    lemma_instrs_from_len(ss, k);
    if j == k {
        assert(instrs_from(ss, k) == seq![ss[k]->Instr_0] + instrs_from(ss, k + 1));
    } else {
        lemma_instr_at_address_from(ss, j + 1, k);
    }
}

/// Address assignment: the instruction at statement index `k` stands at the
/// address equal to the count of instruction statements before it, however
/// many label declarations are interleaved.
pub proof fn lemma_address_assignment(ss: Seq<StmtView>, k: int)
    requires
        0 <= k < ss.len(),
        ss[k] is Instr,
    ensures
        0 <= instr_count(ss, k) < spec_instrs(ss).len(),
        spec_instrs(ss)[instr_count(ss, k)] == ss[k]->Instr_0,
{
    lemma_instr_at_address_from(ss, 0, k);
}

// ---------------------------------------------------------------------------
// The label table
// ---------------------------------------------------------------------------

/// The label table built from the first `k` statements: each label name maps
/// to the address of the next instruction after its declaration.  When a name
/// is declared twice, the first declaration stands (the second is a
/// resolution error anyway).
pub open spec fn labels_upto(ss: Seq<StmtView>, k: int) -> Map<Seq<char>, int>
    decreases k,
{
    if k <= 0 {
        Map::empty()
    } else {
        let m = labels_upto(ss, k - 1);
        match ss[k - 1] {
            StmtView::Label(n) => if m.contains_key(n) {
                m
            } else {
                m.insert(n, instr_count(ss, k - 1))
            },
            _ => m,
        }
    }
}

/// The complete label table of a program.
pub open spec fn spec_label_map(ss: Seq<StmtView>) -> Map<Seq<char>, int> {
    labels_upto(ss, ss.len() as int)
}

/// The first label name, in statement order, that is declared a second time,
/// if any.
pub open spec fn dup_from(ss: Seq<StmtView>, k: int) -> Option<Seq<char>>
    decreases ss.len() - k,
{
    if !(0 <= k < ss.len()) {
        None
    } else {
        match ss[k] {
            StmtView::Label(n) => if labels_upto(ss, k).contains_key(n) {
                Some(n)
            } else {
                dup_from(ss, k + 1)
            },
            _ => dup_from(ss, k + 1),
        }
    }
}

pub open spec fn spec_first_dup(ss: Seq<StmtView>) -> Option<Seq<char>> {
    dup_from(ss, 0)
}

/// The label an instruction names as its jump target without the label being
/// declared, if any.  Only `JMP` and `JZ` targets are jump targets.
pub open spec fn missing_target(iv: InstructionView, lm: Map<Seq<char>, int>) -> Option<
    Seq<char>,
> {
    match iv {
        InstructionView::JMP(t) => match t {
            OperandView::Label(n) => if lm.contains_key(n) {
                None
            } else {
                Some(n)
            },
            _ => None,
        },
        InstructionView::JZ(_, t) => match t {
            OperandView::Label(n) => if lm.contains_key(n) {
                None
            } else {
                Some(n)
            },
            _ => None,
        },
        _ => None,
    }
}

/// The first undeclared label used as a jump target, in address order, from
/// instruction `k` on.
pub open spec fn unresolved_from(
    iv: Seq<InstructionView>,
    lm: Map<Seq<char>, int>,
    k: int,
) -> Option<Seq<char>>
    decreases iv.len() - k,
{
    if !(0 <= k < iv.len()) {
        None
    } else {
        match missing_target(iv[k], lm) {
            Some(n) => Some(n),
            None => unresolved_from(iv, lm, k + 1),
        }
    }
}

pub open spec fn spec_first_unresolved(ss: Seq<StmtView>) -> Option<Seq<char>> {
    unresolved_from(spec_instrs(ss), spec_label_map(ss), 0)
}

/// Mathematical image of a [`ResolutionError`].
pub ghost enum ResolutionErrorV {
    DuplicateLabel(Seq<char>),
    UnresolvedLabel(Seq<char>),
}

/// Why a program cannot be resolved: a label declared twice, or a label used
/// as a jump target but never declared.
#[derive(Debug, PartialEq, Eq)]
pub enum ResolutionError {
    DuplicateLabel(String),
    UnresolvedLabel(String),
}

impl View for ResolutionError {
    type V = ResolutionErrorV;

    open spec fn view(&self) -> ResolutionErrorV {
        match self {
            ResolutionError::DuplicateLabel(n) => ResolutionErrorV::DuplicateLabel(n@),
            ResolutionError::UnresolvedLabel(n) => ResolutionErrorV::UnresolvedLabel(n@),
        }
    }
}

/// The resolution error a program raises, if any: the first duplicate label
/// declaration, else the first unresolved jump target.
pub open spec fn spec_resolve_err(ss: Seq<StmtView>) -> Option<ResolutionErrorV> {
    match spec_first_dup(ss) {
        Some(n) => Some(ResolutionErrorV::DuplicateLabel(n)),
        None => match spec_first_unresolved(ss) {
            Some(n) => Some(ResolutionErrorV::UnresolvedLabel(n)),
            None => None,
        },
    }
}

// ---------------------------------------------------------------------------
// The resolved program
// ---------------------------------------------------------------------------

/// The instructions of an exec instruction vector, viewed, in order.
pub open spec fn instr_views(v: Seq<Instruction>) -> Seq<InstructionView> {
    v.map_values(|i: Instruction| i@)
}

/// The label table as an association list reads, first match winning.
pub open spec fn assoc_map(ps: Seq<(String, usize)>) -> Map<Seq<char>, int>
    decreases ps.len(),
{
    if ps.len() == 0 {
        Map::empty()
    } else {
        assoc_map(ps.drop_first()).insert(ps[0].0@, ps[0].1 as int)
    }
}

proof fn lemma_assoc_push(ps: Seq<(String, usize)>, p: (String, usize))
    ensures
        assoc_map(ps).contains_key(p.0@) ==> assoc_map(ps.push(p)) =~= assoc_map(ps),
        !assoc_map(ps).contains_key(p.0@) ==> assoc_map(ps.push(p)) =~= assoc_map(ps).insert(
            p.0@,
            p.1 as int,
        ),
    decreases ps.len(),
{
    if ps.len() == 0 {
        assert(ps.push(p).drop_first() =~= Seq::<(String, usize)>::empty());
        assert(ps.push(p)[0] == p);
        assert(assoc_map(ps.push(p).drop_first()) =~= Map::<Seq<char>, int>::empty());
        assert(assoc_map(ps.push(p)) =~= assoc_map(ps).insert(p.0@, p.1 as int));
    } else {
        lemma_assoc_push(ps.drop_first(), p);
        assert(ps.push(p).drop_first() =~= ps.drop_first().push(p));
        assert(ps.push(p)[0] == ps[0]);
        if assoc_map(ps.drop_first()).contains_key(p.0@) {
            assert(assoc_map(ps.push(p)) =~= assoc_map(ps));
        } else if ps[0].0@ == p.0@ {
            assert(assoc_map(ps.push(p)) =~= assoc_map(ps));
        } else {
            assert(assoc_map(ps.push(p)) =~= assoc_map(ps).insert(p.0@, p.1 as int));
        }
    }
}

proof fn lemma_assoc_skip(ps: Seq<(String, usize)>, name: Seq<char>, i: int)
    requires
        0 <= i <= ps.len(),
        forall|j: int| 0 <= j < i ==> (#[trigger] ps[j]).0@ != name,
    ensures
        assoc_map(ps).contains_key(name) == assoc_map(ps.skip(i)).contains_key(name),
        assoc_map(ps).contains_key(name) ==> assoc_map(ps)[name] == assoc_map(ps.skip(i))[name],
    decreases i,
{
    if i > 0 {
        lemma_assoc_skip(ps.drop_first(), name, i - 1);
        assert(ps.drop_first().skip(i - 1) =~= ps.skip(i));
        assert(ps[0].0@ != name);
    } else {
        assert(ps.skip(0) =~= ps);
    }
}

fn lookup_pairs(ps: &Vec<(String, usize)>, name: &String) -> (r: Option<usize>)
    ensures
        r is Some <==> assoc_map(ps@).contains_key(name@),
        r matches Some(a) ==> a as int == assoc_map(ps@)[name@],
{
    let mut i: usize = 0;
    while i < ps.len()
        invariant
            i <= ps@.len(),
            forall|j: int| 0 <= j < i ==> (#[trigger] ps@[j]).0@ != name@,
        decreases ps@.len() - i,
    {
        if ps[i].0 == *name {
            proof {
                lemma_assoc_skip(ps@, name@, i as int);
                assert(ps@.skip(i as int).drop_first() =~= ps@.skip(i as int + 1));
                assert(ps@.skip(i as int)[0] == ps@[i as int]);
            }
            return Some(ps[i].1);
        }
        i = i + 1;
    }
    proof {
        lemma_assoc_skip(ps@, name@, i as int);
        assert(ps@.skip(i as int) =~= Seq::<(String, usize)>::empty());
    }
    None
}

/// A resolved program: the instructions in address order, and the label
/// table.  Both are immutable for the remainder of the run.
#[derive(Debug)]
pub struct Resolved {
    /// The instructions, in address order; the instruction at index `a`
    /// stands at address `a`.
    pub instrs: Vec<Instruction>,
    /// The label table as pairs of label name and address, in declaration
    /// order; the first pair with a given name is the one that speaks.
    pub labels: Vec<(String, usize)>,
}

impl Resolved {
    /// The label table: each declared label name and the address it points
    /// at.
    pub open spec fn label_map(&self) -> Map<Seq<char>, int> {
        assoc_map(self.labels@)
    }

    /// Every label address lies within the program: at worst one past the
    /// last instruction, where a label declared at the end of the program
    /// points.
    pub open spec fn wf(&self) -> bool {
        forall|n: Seq<char>|
            #[trigger] self.label_map().contains_key(n) ==> 0 <= self.label_map()[n]
                <= self.instrs@.len()
    }

    /// The address a declared label points at.
    pub fn lookup(&self, name: &String) -> (r: Option<usize>)
        ensures
            r is Some <==> self.label_map().contains_key(name@),
            r matches Some(a) ==> a as int == self.label_map()[name@],
    {
        lookup_pairs(&self.labels, name)
    }
}

/// Resolves a program: assigns each instruction its address and builds the
/// label table.  Fails on the first label declared twice, else on the first
/// label used as a jump target without being declared; no program with
/// either fault begins execution.
pub fn resolve(p: &Program) -> (r: Result<Resolved, ResolutionError>)
    ensures
        r is Ok <==> spec_resolve_err(p@) is None,
        r matches Ok(res) ==> res.wf() && instr_views(res.instrs@) == spec_instrs(p@)
            && res.label_map() == spec_label_map(p@),
        r matches Err(e) ==> Some(e@) == spec_resolve_err(p@),
{
    let ghost ss = p@;
    let n = p.0.len();
    let mut instrs: Vec<Instruction> = Vec::new();
    let mut labels: Vec<(String, usize)> = Vec::new();
    let mut addr: usize = 0;
    let mut k: usize = 0;
    proof {
        assert(instr_views(instrs@) + instrs_from(ss, 0) =~= instrs_from(ss, 0));
        assert(assoc_map(labels@) =~= labels_upto(ss, 0));
    }
    while k < n
        invariant
            k <= n,
            n == p.0@.len(),
            ss == p@,
            ss.len() == n,
            addr == instr_count(ss, k as int),
            0 <= addr <= k,
            instr_views(instrs@) + instrs_from(ss, k as int) == instrs_from(ss, 0),
            instrs@.len() == addr,
            assoc_map(labels@) == labels_upto(ss, k as int),
            dup_from(ss, 0) == dup_from(ss, k as int),
            forall|m: Seq<char>| #[trigger] labels_upto(ss, k as int).contains_key(m) ==> 0
                <= labels_upto(ss, k as int)[m] <= instr_count(ss, k as int),
        decreases n - k,
    {
        let ghost ki = k as int;
        proof {
            assert(ss[ki] == p.0@[ki]@);
            lemma_instr_count_mono(ss, ki, ki + 1);
            lemma_instr_count_range(ss, ki + 1);
        }
        match &p.0[k] {
            Stmt::Label(name) => {
                match lookup_pairs(&labels, name) {
                    Some(_) => {
                        proof {
                            assert(dup_from(ss, ki) == Some(name@));
                        }
                        return Err(ResolutionError::DuplicateLabel(name.clone()));
                    },
                    None => {
                        let ghost before = labels@;
                        let cloned = name.clone();
                        let ghost pair = (cloned, addr);
                        labels.push((cloned, addr));
                        proof {
                            lemma_assoc_push(before, pair);
                            assert(labels@ =~= before.push(pair));
                            assert(assoc_map(labels@) =~= labels_upto(ss, ki + 1));
                            assert(instrs_from(ss, ki) == instrs_from(ss, ki + 1));
                            assert(dup_from(ss, ki) == dup_from(ss, ki + 1));
                        }
                    },
                }
            },
            Stmt::Instr(ins) => {
                let ghost ibefore = instr_views(instrs@);
                instrs.push(ins.clone());
                addr = addr + 1;
                proof {
                    assert(instr_views(instrs@) =~= ibefore.push(ins@));
                    assert(instrs_from(ss, ki) == seq![ins@] + instrs_from(ss, ki + 1));
                    assert(instr_views(instrs@) + instrs_from(ss, ki + 1) =~= instrs_from(
                        ss,
                        0,
                    ));
                    assert(labels_upto(ss, ki + 1) == labels_upto(ss, ki));
                    assert(dup_from(ss, ki) == dup_from(ss, ki + 1));
                }
            },
        }
        k = k + 1;
    }
    proof {
        assert(instrs_from(ss, n as int) =~= Seq::<InstructionView>::empty());
        assert(instr_views(instrs@) =~= instr_views(instrs@) + instrs_from(ss, n as int));
        assert(spec_first_dup(ss) is None);
    }
    // every jump-target label must be declared
    let lm = labels;
    let ghost lmap = assoc_map(lm@);
    let mut m: usize = 0;
    proof {
        assert(lmap == spec_label_map(ss));
        assert(forall|q: Seq<char>| #[trigger] lmap.contains_key(q) ==> 0 <= lmap[q]
            <= instrs@.len());
    }
    while m < instrs.len()
        invariant
            m <= instrs@.len(),
            ss == p@,
            spec_first_dup(ss) is None,
            lmap == assoc_map(lm@),
            lmap == spec_label_map(ss),
            instr_views(instrs@) == spec_instrs(ss),
            forall|q: Seq<char>| #[trigger] lmap.contains_key(q) ==> 0 <= lmap[q]
                <= instrs@.len(),
            unresolved_from(spec_instrs(ss), lmap, 0) == unresolved_from(
                spec_instrs(ss),
                lmap,
                m as int,
            ),
        decreases instrs@.len() - m,
    {
        let ghost mi = m as int;
        let target: Option<&Operand> = match &instrs[m] {
            Instruction::JMP(t) => Some(t),
            Instruction::JZ(_, t) => Some(t),
            _ => None,
        };
        if let Some(t) = target {
            if let Operand::Label(name) = t {
                if lookup_pairs(&lm, name).is_none() {
                    proof {
                        assert(spec_instrs(ss)[mi] == instrs@[mi]@);
                        assert(missing_target(spec_instrs(ss)[mi], lmap) == Some(name@));
                        assert(unresolved_from(spec_instrs(ss), lmap, mi) == Some(name@));
                        assert(spec_first_unresolved(ss) == Some(name@));
                    }
                    return Err(ResolutionError::UnresolvedLabel(name.clone()));
                }
            }
        }
        proof {
            assert(spec_instrs(ss)[mi] == instrs@[mi]@);
            assert(missing_target(spec_instrs(ss)[mi], lmap) is None);
        }
        m = m + 1;
    }
    proof {
        assert(spec_first_unresolved(ss) is None);
        lemma_instrs_from_len(ss, 0);
    }
    let res = Resolved { instrs, labels: lm };
    proof {
        assert(res.wf());
    }
    Ok(res)
}

} // verus!
