use vstd::prelude::*;

use crate::isa::{stmt_views, Instruction, InstructionView, Operand, OperandView, Program, Register, Stmt, StmtView};

verus! {

// ---------------------------------------------------------------------------
// Character classes
// ---------------------------------------------------------------------------

/// Horizontal whitespace: space or tab.  Newlines are statement terminators
/// and are never skipped as ordinary whitespace.
pub open spec fn is_space(c: char) -> bool {
    c == ' ' || c == '\t'
}

/// A line terminator character.  Lines end at `'\n'`, `"\r\n"` or `'\r'`.
pub open spec fn is_newline(c: char) -> bool {
    c == '\n' || c == '\r'
}

/// A decimal digit.
pub open spec fn is_digit(c: char) -> bool {
    '0' as u32 <= c as u32 && c as u32 <= '9' as u32
}

/// A hexadecimal digit.
pub open spec fn is_hex_digit(c: char) -> bool {
    is_digit(c) || ('a' as u32 <= c as u32 && c as u32 <= 'f' as u32) || ('A' as u32 <= c as u32
        && c as u32 <= 'F' as u32)
}

/// A character that may open an identifier: a letter or an underscore.
pub open spec fn is_ident_start(c: char) -> bool {
    ('A' as u32 <= c as u32 && c as u32 <= 'Z' as u32) || ('a' as u32 <= c as u32 && c as u32
        <= 'z' as u32) || c == '_'
}

/// A character that may continue an identifier.
pub open spec fn is_ident_char(c: char) -> bool {
    is_ident_start(c) || is_digit(c)
}

fn space(c: char) -> (b: bool)
    ensures
        b == is_space(c),
{
    c == ' ' || c == '\t'
}

fn digit(c: char) -> (b: bool)
    ensures
        b == is_digit(c),
{
    let u = c as u32;
    '0' as u32 <= u && u <= '9' as u32
}

fn hex_digit(c: char) -> (b: bool)
    ensures
        b == is_hex_digit(c),
{
    let u = c as u32;
    digit(c) || ('a' as u32 <= u && u <= 'f' as u32) || ('A' as u32 <= u && u <= 'F' as u32)
}

fn ident_start(c: char) -> (b: bool)
    ensures
        b == is_ident_start(c),
{
    let u = c as u32;
    ('A' as u32 <= u && u <= 'Z' as u32) || ('a' as u32 <= u && u <= 'z' as u32) || c == '_'
}

fn ident_char(c: char) -> (b: bool)
    ensures
        b == is_ident_char(c),
{
    ident_start(c) || digit(c)
}

// ---------------------------------------------------------------------------
// Scanning primitives over one line
// ---------------------------------------------------------------------------

/// The first column at or after `i` that does not hold horizontal whitespace.
pub open spec fn skip_spaces(l: Seq<char>, i: int) -> int
    decreases l.len() - i,
{
    if 0 <= i < l.len() && is_space(l[i]) {
        skip_spaces(l, i + 1)
    } else {
        i
    }
}


/// The first column at or after `i` whose character cannot continue an
/// identifier.
pub open spec fn ident_end(l: Seq<char>, i: int) -> int
    decreases l.len() - i,
{
    if 0 <= i < l.len() && is_ident_char(l[i]) {
        ident_end(l, i + 1)
    } else {
        i
    }
}


/// The first column at or after `i` that does not hold a decimal digit.
pub open spec fn digit_end(l: Seq<char>, i: int) -> int
    decreases l.len() - i,
{
    if 0 <= i < l.len() && is_digit(l[i]) {
        digit_end(l, i + 1)
    } else {
        i
    }
}


/// The first column at or after `i` that does not hold a hexadecimal digit.
pub open spec fn hex_end(l: Seq<char>, i: int) -> int
    decreases l.len() - i,
{
    if 0 <= i < l.len() && is_hex_digit(l[i]) {
        hex_end(l, i + 1)
    } else {
        i
    }
}


fn skip_spaces_at(l: &str, n: usize, i: usize) -> (r: usize)
    requires
        n == l@.len(),
        i <= n,
    ensures
        r == skip_spaces(l@, i as int),
        i <= r <= n,
{
    let mut p = i;
    while p < n && space(l.get_char(p))
        invariant
            i <= p <= n,
            n == l@.len(),
            skip_spaces(l@, i as int) == skip_spaces(l@, p as int),
        decreases n - p,
    {
        p = p + 1;
    }
    p
}

fn ident_end_at(l: &str, n: usize, i: usize) -> (r: usize)
    requires
        n == l@.len(),
        i <= n,
    ensures
        r == ident_end(l@, i as int),
        i <= r <= n,
{
    let mut p = i;
    while p < n && ident_char(l.get_char(p))
        invariant
            i <= p <= n,
            n == l@.len(),
            ident_end(l@, i as int) == ident_end(l@, p as int),
        decreases n - p,
    {
        p = p + 1;
    }
    p
}

fn digit_end_at(l: &str, n: usize, i: usize) -> (r: usize)
    requires
        n == l@.len(),
        i <= n,
    ensures
        r == digit_end(l@, i as int),
        i <= r <= n,
{
    let mut p = i;
    while p < n && digit(l.get_char(p))
        invariant
            i <= p <= n,
            n == l@.len(),
            digit_end(l@, i as int) == digit_end(l@, p as int),
        decreases n - p,
    {
        p = p + 1;
    }
    p
}

fn hex_end_at(l: &str, n: usize, i: usize) -> (r: usize)
    requires
        n == l@.len(),
        i <= n,
    ensures
        r == hex_end(l@, i as int),
        i <= r <= n,
{
    let mut p = i;
    while p < n && hex_digit(l.get_char(p))
        invariant
            i <= p <= n,
            n == l@.len(),
            hex_end(l@, i as int) == hex_end(l@, p as int),
        decreases n - p,
    {
        p = p + 1;
    }
    p
}

// ---------------------------------------------------------------------------
// Integer literals
// ---------------------------------------------------------------------------

/// The numeric value of one digit character; zero for any other character.
pub open spec fn digit_val(c: char) -> int {
    if is_digit(c) {
        c as u32 - '0' as u32
    } else if 'a' as u32 <= c as u32 && c as u32 <= 'f' as u32 {
        c as u32 - 'a' as u32 + 10
    } else if 'A' as u32 <= c as u32 && c as u32 <= 'F' as u32 {
        c as u32 - 'A' as u32 + 10
    } else {
        0
    }
}

/// The value of the digit run `l[i .. j)` read in the given base, most
/// significant digit first.
pub open spec fn run_val(l: Seq<char>, i: int, j: int, base: int) -> int
    decreases j - i,
{
    if j <= i {
        0
    } else {
        run_val(l, i, j - 1, base) * base + digit_val(l[j - 1])
    }
}

pub proof fn lemma_run_val_nonneg(l: Seq<char>, i: int, j: int, base: int)
    requires
        base >= 1,
    ensures
        run_val(l, i, j, base) >= 0,
    decreases j - i,
{
    if j > i {
        lemma_run_val_nonneg(l, i, j - 1, base);
    }
}

/// A longer digit run never has a smaller value.
pub proof fn lemma_run_val_monotone(l: Seq<char>, i: int, k: int, j: int, base: int)
    requires
        base >= 1,
        k <= j,
    ensures
        run_val(l, i, j, base) >= run_val(l, i, k, base),
    decreases j - k,
{
    if j > k {
        lemma_run_val_monotone(l, i, k, j - 1, base);
        lemma_run_val_nonneg(l, i, j - 1, base);
        let v = run_val(l, i, j - 1, base);
        assert(v * base >= v) by (nonlinear_arith)
            requires
                v >= 0,
                base >= 1,
        ;
    }
}

fn digit_value(c: char) -> (v: u64)
    requires
        is_hex_digit(c),
    ensures
        v == digit_val(c),
{
    let u = c as u32;
    if digit(c) {
        (u - '0' as u32) as u64
    } else if 'a' as u32 <= u && u <= 'f' as u32 {
        (u - 'a' as u32) as u64 + 10
    } else {
        (u - 'A' as u32) as u64 + 10
    }
}

/// Reads the digit run `l[i .. j)` in the given base.  `None` means the run's
/// value exceeds `i32::MAX`, the largest magnitude an integer literal may
/// carry.
fn run_value(l: &str, n: usize, i: usize, j: usize, base: u64) -> (r: Option<u64>)
    requires
        n == l@.len(),
        i <= j <= n,
        base == 10 || base == 16,
        forall|k: int| i <= k < j ==> is_hex_digit(#[trigger] l@[k]),
    ensures
        r is Some ==> r->Some_0 == run_val(l@, i as int, j as int, base as int) && r->Some_0
            <= 0x7fff_ffff,
        r is None ==> run_val(l@, i as int, j as int, base as int) > 0x7fff_ffff,
{
    let mut acc: u64 = 0;
    let mut k = i;
    while k < j
        invariant
            i <= k <= j <= n,
            n == l@.len(),
            base == 10 || base == 16,
            forall|m: int| i <= m < j ==> is_hex_digit(#[trigger] l@[m]),
            acc == run_val(l@, i as int, k as int, base as int),
            acc <= 0x7fff_ffff,
        decreases j - k,
    {
        let d = digit_value(l.get_char(k));
        proof {
            assert(acc * base <= 0x7fff_ffff * 16) by (nonlinear_arith)
                requires
                    0 <= acc <= 0x7fff_ffff,
                    0 <= base <= 16,
            ;
        }
        let next = acc * base + d;
        if next > 0x7fff_ffff {
            proof {
                lemma_run_val_monotone(l@, i as int, k as int + 1, j as int, base as int);
            }
            return None;
        }
        acc = next;
        k = k + 1;
    }
    Some(acc)
}

/// What scanning for an integer literal at a column found.
pub ghost enum IntScan {
    /// No integer literal starts here.
    NoInt,
    /// A literal with this value, ending (exclusively) at this column.
    Val(int, int),
    /// A literal stands here but its magnitude exceeds `i32::MAX`.
    TooBig,
}

/// Scanning for an integer literal at column `i` of line `l`: an optional
/// sign, then either `0x` followed by hexadecimal digits or a run of decimal
/// digits.  A `0x` prefix with no hexadecimal digit after it is read as the
/// decimal literal `0`.  The magnitude must fit in `i32`; the value of a
/// `-`-signed literal is the negated magnitude.
pub open spec fn scan_int(l: Seq<char>, i: int) -> IntScan {
    let neg = 0 <= i < l.len() && l[i] == '-';
    let signed = neg || (0 <= i < l.len() && l[i] == '+');
    let p = if signed {
        i + 1
    } else {
        i
    };
    if p + 2 < l.len() && l[p] == '0' && l[p + 1] == 'x' && is_hex_digit(l[p + 2]) {
        let j = hex_end(l, p + 2);
        let v = run_val(l, p + 2, j, 16);
        if v > 0x7fff_ffff {
            IntScan::TooBig
        } else {
            IntScan::Val(if neg { -v } else { v }, j)
        }
    } else if p < l.len() && is_digit(l[p]) {
        let j = digit_end(l, p);
        let v = run_val(l, p, j, 10);
        if v > 0x7fff_ffff {
            IntScan::TooBig
        } else {
            IntScan::Val(if neg { -v } else { v }, j)
        }
    } else {
        IntScan::NoInt
    }
}

/// Exec-side result of scanning for an integer literal.
enum IntToken {
    NoInt,
    Val(i32, usize),
    TooBig,
}

impl View for IntToken {
    type V = IntScan;

    closed spec fn view(&self) -> IntScan {
        match self {
            IntToken::NoInt => IntScan::NoInt,
            IntToken::Val(v, j) => IntScan::Val(*v as int, *j as int),
            IntToken::TooBig => IntScan::TooBig,
        }
    }
}

proof fn lemma_digit_run_is_hex(l: Seq<char>, i: int, j: int)
    requires
        j == digit_end(l, i),
    ensures
        forall|k: int| i <= k < j ==> is_hex_digit(#[trigger] l[k]),
    decreases j - i,
{
    if 0 <= i < l.len() && is_digit(l[i]) && i < j {
        lemma_digit_run_is_hex(l, i + 1, j);
    }
}

proof fn lemma_hex_run_is_hex(l: Seq<char>, i: int, j: int)
    requires
        j == hex_end(l, i),
    ensures
        forall|k: int| i <= k < j ==> is_hex_digit(#[trigger] l[k]),
    decreases j - i,
{
    if 0 <= i < l.len() && is_hex_digit(l[i]) && i < j {
        lemma_hex_run_is_hex(l, i + 1, j);
    }
}

fn int32_at(l: &str, n: usize, i: usize) -> (r: IntToken)
    requires
        n == l@.len(),
        i <= n,
    ensures
        r@ == scan_int(l@, i as int),
        r matches IntToken::Val(_, j) ==> i <= j <= n,
{
    let neg = i < n && l.get_char(i) == '-';
    let signed = neg || (i < n && l.get_char(i) == '+');
    let p = if signed {
        i + 1
    } else {
        i
    };
    if n - p > 2 && l.get_char(p) == '0' && l.get_char(p + 1) == 'x' && hex_digit(
        l.get_char(p + 2),
    ) {
        let j = hex_end_at(l, n, p + 2);
        proof {
            lemma_hex_run_is_hex(l@, p as int + 2, j as int);
        }
        match run_value(l, n, p + 2, j, 16) {
            Some(v) => {
                let m = v as i32;
                IntToken::Val(if neg { -m } else { m }, j)
            },
            None => IntToken::TooBig,
        }
    } else if p < n && digit(l.get_char(p)) {
        let j = digit_end_at(l, n, p);
        proof {
            lemma_digit_run_is_hex(l@, p as int, j as int);
        }
        match run_value(l, n, p, j, 10) {
            Some(v) => {
                let m = v as i32;
                IntToken::Val(if neg { -m } else { m }, j)
            },
            None => IntToken::TooBig,
        }
    } else {
        IntToken::NoInt
    }
}

// ---------------------------------------------------------------------------
// Operands
// ---------------------------------------------------------------------------

/// The register holding the given register file slot number.
pub open spec fn reg_from_num(n: int) -> Register {
    if n == 0 {
        Register::X0
    } else if n == 1 {
        Register::X1
    } else if n == 2 {
        Register::X2
    } else if n == 3 {
        Register::X3
    } else if n == 4 {
        Register::X4
    } else if n == 5 {
        Register::X5
    } else if n == 6 {
        Register::X6
    } else {
        Register::X7
    }
}

/// The register named by a whole identifier word, if the word is one of the
/// register literals `X0` through `X7`.
pub open spec fn reg_of_word(w: Seq<char>) -> Option<Register> {
    if w.len() == 2 && w[0] == 'X' && '0' as u32 <= w[1] as u32 && w[1] as u32 <= '7' as u32 {
        Some(reg_from_num(w[1] as u32 - '0' as u32))
    } else {
        None
    }
}

/// What scanning for an operand at a column found.
pub ghost enum OperandScan {
    /// No operand starts here.
    NoOp,
    /// An operand, with the column after it and its trailing whitespace.
    Op(OperandView, int),
    /// An integer literal stands here but its magnitude exceeds `i32::MAX`.
    BadInt,
}

/// Scanning for an operand at column `i`: a register literal, else an integer
/// literal, else a bare identifier read as a label reference.  An identifier
/// word is a register exactly when it is one of `X0` through `X7` whole, so
/// `X0` is never read as a label while `X01` is.  Trailing horizontal
/// whitespace is consumed.
pub open spec fn scan_operand(l: Seq<char>, i: int) -> OperandScan {
    if 0 <= i < l.len() && is_ident_start(l[i]) {
        let j = ident_end(l, i);
        let w = l.subrange(i, j);
        let op = match reg_of_word(w) {
            Some(r) => OperandView::Register(r),
            None => OperandView::Label(w),
        };
        OperandScan::Op(op, skip_spaces(l, j))
    } else {
        match scan_int(l, i) {
            IntScan::NoInt => OperandScan::NoOp,
            IntScan::Val(v, j) => OperandScan::Op(
                OperandView::Immediate(v as i32),
                skip_spaces(l, j),
            ),
            IntScan::TooBig => OperandScan::BadInt,
        }
    }
}

/// Exec-side result of scanning for an operand.
enum OpToken {
    NoOp,
    Op(Operand, usize),
    BadInt,
}

impl View for OpToken {
    type V = OperandScan;

    closed spec fn view(&self) -> OperandScan {
        match self {
            OpToken::NoOp => OperandScan::NoOp,
            OpToken::Op(op, j) => OperandScan::Op(op@, *j as int),
            OpToken::BadInt => OperandScan::BadInt,
        }
    }
}

fn register_of_range(l: &str, n: usize, i: usize, j: usize) -> (r: Option<Register>)
    requires
        n == l@.len(),
        i <= j <= n,
    ensures
        r == reg_of_word(l@.subrange(i as int, j as int)),
{
    let ghost w = l@.subrange(i as int, j as int);
    if j - i == 2 && l.get_char(i) == 'X' {
        let u = l.get_char(i + 1) as u32;
        if '0' as u32 <= u && u <= '7' as u32 {
            let d = u - '0' as u32;
            let reg = if d == 0 {
                Register::X0
            } else if d == 1 {
                Register::X1
            } else if d == 2 {
                Register::X2
            } else if d == 3 {
                Register::X3
            } else if d == 4 {
                Register::X4
            } else if d == 5 {
                Register::X5
            } else if d == 6 {
                Register::X6
            } else {
                Register::X7
            };
            Some(reg)
        } else {
            None
        }
    } else {
        None
    }
}

fn operand_at(l: &str, n: usize, i: usize) -> (r: OpToken)
    requires
        n == l@.len(),
        i <= n,
    ensures
        r@ == scan_operand(l@, i as int),
        r matches OpToken::Op(_, j) ==> i <= j <= n,
{
    if i < n && ident_start(l.get_char(i)) {
        let j = ident_end_at(l, n, i);
        let op = match register_of_range(l, n, i, j) {
            Some(r) => Operand::Register(r),
            None => Operand::Label(l.substring_char(i, j).to_owned()),
        };
        OpToken::Op(op, skip_spaces_at(l, n, j))
    } else {
        match int32_at(l, n, i) {
            IntToken::NoInt => OpToken::NoOp,
            IntToken::Val(v, j) => OpToken::Op(Operand::Immediate(v), skip_spaces_at(l, n, j)),
            IntToken::TooBig => OpToken::BadInt,
        }
    }
}

/// The column after a comma at `i` and its trailing whitespace, if a comma
/// stands at `i`.
pub open spec fn scan_comma(l: Seq<char>, i: int) -> Option<int> {
    if 0 <= i < l.len() && l[i] == ',' {
        Some(skip_spaces(l, i + 1))
    } else {
        None
    }
}

fn comma_at(l: &str, n: usize, i: usize) -> (r: Option<usize>)
    requires
        n == l@.len(),
        i <= n,
    ensures
        r matches Some(j) ==> scan_comma(l@, i as int) == Some(j as int) && i <= j <= n,
        r is None ==> scan_comma(l@, i as int) is None,
{
    if i < n && l.get_char(i) == ',' {
        Some(skip_spaces_at(l, n, i + 1))
    } else {
        None
    }
}

// ---------------------------------------------------------------------------
// Statements
// ---------------------------------------------------------------------------

/// How a line failed to parse.
#[derive(Debug, Clone, Copy, PartialEq, Eq, Structural)]
pub enum SyntaxErrorKind {
    /// The line matches no statement, comment or blank shape.
    MalformedLine,
    /// The line opens with an identifier that is no opcode and declares no
    /// label.
    UnknownOpcode,
    /// An integer literal whose magnitude exceeds `i32::MAX`.
    BadIntLiteral,
}

/// What scanning one comma-separated operand list found.
pub ghost enum ArgsScan {
    /// The operands, and the column after the list.
    ArgsOk(Seq<OperandView>, int),
    /// The list is malformed: the error kind and its column.
    ArgsFail(SyntaxErrorKind, int),
}

/// Scanning `count` comma-separated operands starting at column `i`.
pub open spec fn scan_args(l: Seq<char>, i: int, count: int) -> ArgsScan
    decreases count,
{
    if count <= 0 {
        ArgsScan::ArgsOk(seq![], i)
    } else {
        match scan_operand(l, i) {
            OperandScan::NoOp => ArgsScan::ArgsFail(SyntaxErrorKind::MalformedLine, i),
            OperandScan::BadInt => ArgsScan::ArgsFail(SyntaxErrorKind::BadIntLiteral, i),
            OperandScan::Op(op, j) => {
                if count == 1 {
                    ArgsScan::ArgsOk(seq![op], j)
                } else {
                    match scan_comma(l, j) {
                        None => ArgsScan::ArgsFail(SyntaxErrorKind::MalformedLine, j),
                        Some(k) => match scan_args(l, k, count - 1) {
                            ArgsScan::ArgsOk(rest, m) => ArgsScan::ArgsOk(seq![op] + rest, m),
                            ArgsScan::ArgsFail(kind, pos) => ArgsScan::ArgsFail(kind, pos),
                        },
                    }
                }
            },
        }
    }
}

/// Exec-side result of scanning an operand list.
enum ArgsToken {
    ArgsOk(Vec<Operand>, usize),
    ArgsFail(SyntaxErrorKind, usize),
}

/// The operands of an exec operand list, viewed.
pub open spec fn operand_views(v: Seq<Operand>) -> Seq<OperandView> {
    v.map_values(|o: Operand| o@)
}

impl View for ArgsToken {
    type V = ArgsScan;

    closed spec fn view(&self) -> ArgsScan {
        match self {
            ArgsToken::ArgsOk(ops, j) => ArgsScan::ArgsOk(operand_views(ops@), *j as int),
            ArgsToken::ArgsFail(k, pos) => ArgsScan::ArgsFail(*k, *pos as int),
        }
    }
}

fn args_at(l: &str, n: usize, i: usize, count: usize) -> (r: ArgsToken)
    requires
        n == l@.len(),
        i <= n,
    ensures
        r@ == scan_args(l@, i as int, count as int),
        r matches ArgsToken::ArgsOk(_, j) ==> i <= j <= n,
    decreases count,
{
    if count == 0 {
        let ops: Vec<Operand> = Vec::new();
        proof {
            assert(operand_views(ops@) =~= Seq::<OperandView>::empty());
        }
        ArgsToken::ArgsOk(ops, i)
    } else {
        match operand_at(l, n, i) {
            OpToken::NoOp => ArgsToken::ArgsFail(SyntaxErrorKind::MalformedLine, i),
            OpToken::BadInt => ArgsToken::ArgsFail(SyntaxErrorKind::BadIntLiteral, i),
            OpToken::Op(op, j) => {
                if count == 1 {
                    let ghost opv = op@;
                    let mut ops: Vec<Operand> = Vec::new();
                    ops.push(op);
                    proof {
                        assert(operand_views(ops@) =~= seq![opv]);
                    }
                    ArgsToken::ArgsOk(ops, j)
                } else {
                    match comma_at(l, n, j) {
                        None => ArgsToken::ArgsFail(SyntaxErrorKind::MalformedLine, j),
                        Some(k) => match args_at(l, n, k, count - 1) {
                            ArgsToken::ArgsOk(rest, m) => {
                                let ghost opv = op@;
                                let ghost restv = operand_views(rest@);
                                let mut ops = rest;
                                ops.insert(0, op);
                                proof {
                                    assert(operand_views(ops@) =~= seq![opv] + restv);
                                }
                                ArgsToken::ArgsOk(ops, m)
                            },
                            ArgsToken::ArgsFail(kind, pos) => ArgsToken::ArgsFail(kind, pos),
                        },
                    }
                }
            },
        }
    }
}

/// What scanning for a statement at a column found.
pub ghost enum StmtScan {
    /// The statement, and the column after it and its trailing whitespace.
    Good(StmtView, int),
    /// The statement is malformed: the error kind and its column.
    Fail(SyntaxErrorKind, int),
}

/// Every operand list that scans successfully has exactly the requested
/// number of operands.
pub proof fn lemma_scan_args_len(l: Seq<char>, i: int, count: int)
    requires
        count >= 0,
    ensures
        scan_args(l, i, count) matches ArgsScan::ArgsOk(ops, _) ==> ops.len() == count,
    decreases count,
{
    if count > 0 {
        if let OperandScan::Op(op, j) = scan_operand(l, i) {
            if count > 1 {
                if let Some(k) = scan_comma(l, j) {
                    lemma_scan_args_len(l, k, count - 1);
                }
            }
        }
    }
}

/// Scanning for a statement at column `i`: an identifier immediately followed
/// by `:` declares a label; otherwise the identifier must be an opcode with
/// its written arity of comma-separated operands after it.  `i` is expected
/// at the first non-blank column of the statement.
pub open spec fn scan_stmt(l: Seq<char>, i: int) -> StmtScan {
    if 0 <= i < l.len() && is_ident_start(l[i]) {
        let j = ident_end(l, i);
        let w = l.subrange(i, j);
        if j < l.len() && l[j] == ':' {
            StmtScan::Good(StmtView::Label(w), skip_spaces(l, j + 1))
        } else if w == seq!['A', 'D', 'D'] {
            match scan_args(l, skip_spaces(l, j), 3) {
                ArgsScan::ArgsOk(ops, m) => StmtScan::Good(
                    StmtView::Instr(InstructionView::ADD(ops[0], ops[1], ops[2])),
                    m,
                ),
                ArgsScan::ArgsFail(k, p) => StmtScan::Fail(k, p),
            }
        } else if w == seq!['A', 'D', 'D', 'I'] {
            match scan_args(l, skip_spaces(l, j), 3) {
                ArgsScan::ArgsOk(ops, m) => StmtScan::Good(
                    StmtView::Instr(InstructionView::ADDI(ops[0], ops[1], ops[2])),
                    m,
                ),
                ArgsScan::ArgsFail(k, p) => StmtScan::Fail(k, p),
            }
        } else if w == seq!['M', 'O', 'V'] {
            match scan_args(l, skip_spaces(l, j), 2) {
                ArgsScan::ArgsOk(ops, m) => StmtScan::Good(
                    StmtView::Instr(InstructionView::MOV(ops[0], ops[1])),
                    m,
                ),
                ArgsScan::ArgsFail(k, p) => StmtScan::Fail(k, p),
            }
        } else if w == seq!['J', 'M', 'P'] {
            match scan_args(l, skip_spaces(l, j), 1) {
                ArgsScan::ArgsOk(ops, m) => StmtScan::Good(
                    StmtView::Instr(InstructionView::JMP(ops[0])),
                    m,
                ),
                ArgsScan::ArgsFail(k, p) => StmtScan::Fail(k, p),
            }
        } else if w == seq!['J', 'Z'] {
            match scan_args(l, skip_spaces(l, j), 2) {
                ArgsScan::ArgsOk(ops, m) => StmtScan::Good(
                    StmtView::Instr(InstructionView::JZ(ops[0], ops[1])),
                    m,
                ),
                ArgsScan::ArgsFail(k, p) => StmtScan::Fail(k, p),
            }
        } else if w == seq!['H', 'A', 'L', 'T'] {
            StmtScan::Good(StmtView::Instr(InstructionView::HALT), skip_spaces(l, j))
        } else {
            StmtScan::Fail(SyntaxErrorKind::UnknownOpcode, i)
        }
    } else {
        StmtScan::Fail(SyntaxErrorKind::MalformedLine, i)
    }
}

/// Exec-side result of scanning for a statement.
enum StmtToken {
    Good(Stmt, usize),
    Fail(SyntaxErrorKind, usize),
}

impl View for StmtToken {
    type V = StmtScan;

    closed spec fn view(&self) -> StmtScan {
        match self {
            StmtToken::Good(st, q) => StmtScan::Good(st@, *q as int),
            StmtToken::Fail(k, pos) => StmtScan::Fail(*k, *pos as int),
        }
    }
}

fn take3(ops: &mut Vec<Operand>) -> (r: (Operand, Operand, Operand))
    requires
        old(ops)@.len() == 3,
    ensures
        r.0@ == operand_views(old(ops)@)[0],
        r.1@ == operand_views(old(ops)@)[1],
        r.2@ == operand_views(old(ops)@)[2],
{
    let a = ops.remove(0);
    let b = ops.remove(0);
    let c = ops.remove(0);
    (a, b, c)
}

fn take2(ops: &mut Vec<Operand>) -> (r: (Operand, Operand))
    requires
        old(ops)@.len() == 2,
    ensures
        r.0@ == operand_views(old(ops)@)[0],
        r.1@ == operand_views(old(ops)@)[1],
{
    let a = ops.remove(0);
    let b = ops.remove(0);
    (a, b)
}

fn stmt_at(l: &str, n: usize, i: usize) -> (r: StmtToken)
    requires
        n == l@.len(),
        i <= n,
    ensures
        r@ == scan_stmt(l@, i as int),
        r matches StmtToken::Good(_, q) ==> i <= q <= n,
{
    if i < n && ident_start(l.get_char(i)) {
        let j = ident_end_at(l, n, i);
        let ghost w = l@.subrange(i as int, j as int);
        if j < n && l.get_char(j) == ':' {
            let name = l.substring_char(i, j).to_owned();
            StmtToken::Good(Stmt::Label(name), skip_spaces_at(l, n, j + 1))
        } else {
            let len = j - i;
            let c0 = l.get_char(i);
            if len == 3 && c0 == 'A' && l.get_char(i + 1) == 'D' && l.get_char(i + 2) == 'D' {
                proof {
                    assert(w =~= seq!['A', 'D', 'D']);
                    lemma_scan_args_len(l@, skip_spaces(l@, j as int), 3);
                }
                match args_at(l, n, skip_spaces_at(l, n, j), 3) {
                    ArgsToken::ArgsOk(ops, m) => {
                        let mut ops = ops;
                        let (a, b, c) = take3(&mut ops);
                        StmtToken::Good(Stmt::Instr(Instruction::ADD(a, b, c)), m)
                    },
                    ArgsToken::ArgsFail(k, p) => StmtToken::Fail(k, p),
                }
            } else if len == 4 && c0 == 'A' && l.get_char(i + 1) == 'D' && l.get_char(i + 2)
                == 'D' && l.get_char(i + 3) == 'I' {
                proof {
                    assert(w =~= seq!['A', 'D', 'D', 'I']);
                    lemma_scan_args_len(l@, skip_spaces(l@, j as int), 3);
                }
                match args_at(l, n, skip_spaces_at(l, n, j), 3) {
                    ArgsToken::ArgsOk(ops, m) => {
                        let mut ops = ops;
                        let (a, b, c) = take3(&mut ops);
                        StmtToken::Good(Stmt::Instr(Instruction::ADDI(a, b, c)), m)
                    },
                    ArgsToken::ArgsFail(k, p) => StmtToken::Fail(k, p),
                }
            } else if len == 3 && c0 == 'M' && l.get_char(i + 1) == 'O' && l.get_char(i + 2)
                == 'V' {
                proof {
                    assert(w =~= seq!['M', 'O', 'V']);
                    lemma_scan_args_len(l@, skip_spaces(l@, j as int), 2);
                }
                match args_at(l, n, skip_spaces_at(l, n, j), 2) {
                    ArgsToken::ArgsOk(ops, m) => {
                        let mut ops = ops;
                        let (a, b) = take2(&mut ops);
                        StmtToken::Good(Stmt::Instr(Instruction::MOV(a, b)), m)
                    },
                    ArgsToken::ArgsFail(k, p) => StmtToken::Fail(k, p),
                }
            } else if len == 3 && c0 == 'J' && l.get_char(i + 1) == 'M' && l.get_char(i + 2)
                == 'P' {
                proof {
                    assert(w =~= seq!['J', 'M', 'P']);
                    lemma_scan_args_len(l@, skip_spaces(l@, j as int), 1);
                }
                match args_at(l, n, skip_spaces_at(l, n, j), 1) {
                    ArgsToken::ArgsOk(ops, m) => {
                        let mut ops = ops;
                        let a = ops.remove(0);
                        StmtToken::Good(Stmt::Instr(Instruction::JMP(a)), m)
                    },
                    ArgsToken::ArgsFail(k, p) => StmtToken::Fail(k, p),
                }
            } else if len == 2 && c0 == 'J' && l.get_char(i + 1) == 'Z' {
                proof {
                    assert(w =~= seq!['J', 'Z']);
                    lemma_scan_args_len(l@, skip_spaces(l@, j as int), 2);
                }
                match args_at(l, n, skip_spaces_at(l, n, j), 2) {
                    ArgsToken::ArgsOk(ops, m) => {
                        let mut ops = ops;
                        let (a, b) = take2(&mut ops);
                        StmtToken::Good(Stmt::Instr(Instruction::JZ(a, b)), m)
                    },
                    ArgsToken::ArgsFail(k, p) => StmtToken::Fail(k, p),
                }
            } else if len == 4 && c0 == 'H' && l.get_char(i + 1) == 'A' && l.get_char(i + 2)
                == 'L' && l.get_char(i + 3) == 'T' {
                proof {
                    assert(w =~= seq!['H', 'A', 'L', 'T']);
                }
                StmtToken::Good(Stmt::Instr(Instruction::HALT), skip_spaces_at(l, n, j))
            } else {
                proof {
                    assert(w.len() == j - i);
                    assert(w != seq!['A', 'D', 'D']);
                    assert(w != seq!['A', 'D', 'D', 'I']);
                    assert(w != seq!['M', 'O', 'V']);
                    assert(w != seq!['J', 'M', 'P']);
                    assert(w != seq!['J', 'Z']);
                    assert(w != seq!['H', 'A', 'L', 'T']);
                }
                StmtToken::Fail(SyntaxErrorKind::UnknownOpcode, i)
            }
        }
    } else {
        StmtToken::Fail(SyntaxErrorKind::MalformedLine, i)
    }
}

// ---------------------------------------------------------------------------
// Lines
// ---------------------------------------------------------------------------

/// What one whole line contributes to the program.
pub ghost enum LineScan {
    /// A blank or comment-only line: nothing.
    NoStmt,
    /// A statement line: one statement.
    OneStmt(StmtView),
    /// A label declaration with an instruction after it on the same line:
    /// two statements, in that order.
    LabelledStmt(StmtView, StmtView),
    /// A malformed line: an error, at this column.
    LineErr(SyntaxErrorKind, int),
}

/// Reading one whole line: optional indentation, then either nothing, a
/// comment, or a statement followed by optional trailing whitespace and an
/// optional comment.  A label declaration may also be followed by an
/// instruction on the same line; the label then points at that instruction.
pub open spec fn scan_line(l: Seq<char>) -> LineScan {
    let p = skip_spaces(l, 0);
    if p >= l.len() {
        LineScan::NoStmt
    } else if l[p] == ';' {
        LineScan::NoStmt
    } else {
        match scan_stmt(l, p) {
            StmtScan::Good(st, q) => if q >= l.len() || l[q] == ';' {
                LineScan::OneStmt(st)
            } else if st is Label {
                match scan_stmt(l, q) {
                    StmtScan::Good(st2, q2) => if st2 is Instr && (q2 >= l.len() || l[q2]
                        == ';') {
                        LineScan::LabelledStmt(st, st2)
                    } else if st2 is Instr {
                        LineScan::LineErr(SyntaxErrorKind::MalformedLine, q2)
                    } else {
                        LineScan::LineErr(SyntaxErrorKind::MalformedLine, q)
                    },
                    StmtScan::Fail(k, pos) => LineScan::LineErr(k, pos),
                }
            } else {
                LineScan::LineErr(SyntaxErrorKind::MalformedLine, q)
            },
            StmtScan::Fail(k, pos) => LineScan::LineErr(k, pos),
        }
    }
}

/// Exec-side result of reading one line.
enum LineToken {
    NoStmt,
    OneStmt(Stmt),
    LabelledStmt(Stmt, Stmt),
    LineErr(SyntaxErrorKind, usize),
}

impl View for LineToken {
    type V = LineScan;

    closed spec fn view(&self) -> LineScan {
        match self {
            LineToken::NoStmt => LineScan::NoStmt,
            LineToken::OneStmt(st) => LineScan::OneStmt(st@),
            LineToken::LabelledStmt(st, st2) => LineScan::LabelledStmt(st@, st2@),
            LineToken::LineErr(k, pos) => LineScan::LineErr(*k, *pos as int),
        }
    }
}

fn parse_line(l: &str) -> (r: LineToken)
    ensures
        r@ == scan_line(l@),
{
    let n = l.unicode_len();
    let p = skip_spaces_at(l, n, 0);
    if p >= n {
        LineToken::NoStmt
    } else if l.get_char(p) == ';' {
        LineToken::NoStmt
    } else {
        match stmt_at(l, n, p) {
            StmtToken::Good(st, q) => if q >= n || l.get_char(q) == ';' {
                LineToken::OneStmt(st)
            } else if matches!(st, Stmt::Label(_)) {
                match stmt_at(l, n, q) {
                    StmtToken::Good(st2, q2) => if matches!(st2, Stmt::Instr(_)) && (q2 >= n
                        || l.get_char(q2) == ';') {
                        LineToken::LabelledStmt(st, st2)
                    } else if matches!(st2, Stmt::Instr(_)) {
                        LineToken::LineErr(SyntaxErrorKind::MalformedLine, q2)
                    } else {
                        LineToken::LineErr(SyntaxErrorKind::MalformedLine, q)
                    },
                    StmtToken::Fail(k, pos) => LineToken::LineErr(k, pos),
                }
            } else {
                LineToken::LineErr(SyntaxErrorKind::MalformedLine, q)
            },
            StmtToken::Fail(k, pos) => LineToken::LineErr(k, pos),
        }
    }
}

// ---------------------------------------------------------------------------
// Splitting the source into lines
// ---------------------------------------------------------------------------

fn newline_c(c: char) -> (b: bool)
    ensures
        b == is_newline(c),
{
    c == '\n' || c == '\r'
}

/// The first index at or after `i` that holds a line terminator character.
pub open spec fn line_break(s: Seq<char>, i: int) -> int
    decreases s.len() - i,
{
    if 0 <= i < s.len() && !is_newline(s[i]) {
        line_break(s, i + 1)
    } else {
        i
    }
}

pub proof fn lemma_line_break_bounds(s: Seq<char>, i: int)
    requires
        0 <= i <= s.len(),
    ensures
        i <= line_break(s, i) <= s.len(),
    decreases s.len() - i,
{
    if i < s.len() && !is_newline(s[i]) {
        lemma_line_break_bounds(s, i + 1);
    }
}

fn line_break_at(s: &str, n: usize, i: usize) -> (r: usize)
    requires
        n == s@.len(),
        i <= n,
    ensures
        r == line_break(s@, i as int),
        i <= r <= n,
{
    let mut p = i;
    while p < n && !newline_c(s.get_char(p))
        invariant
            i <= p <= n,
            n == s@.len(),
            line_break(s@, i as int) == line_break(s@, p as int),
        decreases n - p,
    {
        p = p + 1;
    }
    p
}

/// The source cut at line terminators, in order; the terminators themselves
/// (`'\n'`, `"\r\n"` or a lone `'\r'`) belong to no line.  A final line needs
/// no terminator, and a terminator at the end of the source opens no empty
/// line after it.
pub open spec fn lines_from(s: Seq<char>, i: int) -> Seq<Seq<char>>
    decreases s.len() - i + 1,
{
    if !(0 <= i < s.len()) {
        seq![]
    } else {
        let j = line_break(s, i);
        let k = if j < s.len() && s[j] == '\r' && j + 1 < s.len() && s[j + 1] == '\n' {
            j + 2
        } else {
            j + 1
        };
        proof {
            lemma_line_break_bounds(s, i);
        }
        seq![s.subrange(i, j)] + lines_from(s, k)
    }
}

/// The lines of the source, in order.
pub open spec fn spec_lines(s: Seq<char>) -> Seq<Seq<char>> {
    lines_from(s, 0)
}

/// The lines of an exec line vector, viewed, in order.
pub open spec fn line_views(v: Seq<&str>) -> Seq<Seq<char>> {
    v.map_values(|l: &str| l@)
}

fn split_lines<'a>(s: &'a str) -> (lines: Vec<&'a str>)
    ensures
        line_views(lines@) == spec_lines(s@),
{
    let n = s.unicode_len();
    let mut lines: Vec<&str> = Vec::new();
    let mut i: usize = 0;
    proof {
        assert(line_views(lines@) + lines_from(s@, 0) =~= lines_from(s@, 0));
    }
    while i < n
        invariant
            i <= n,
            n == s@.len(),
            line_views(lines@) + lines_from(s@, i as int) == spec_lines(s@),
        decreases n - i,
    {
        let j = line_break_at(s, n, i);
        let piece = s.substring_char(i, j);
        let ghost before = line_views(lines@);
        lines.push(piece);
        proof {
            assert(line_views(lines@) =~= before.push(piece@));
        }
        if j >= n {
            proof {
                assert(lines_from(s@, i as int) == seq![piece@] + lines_from(s@, j as int + 1));
                assert(lines_from(s@, j as int + 1) =~= Seq::<Seq<char>>::empty());
                assert(lines_from(s@, n as int) =~= Seq::<Seq<char>>::empty());
                assert(line_views(lines@) + lines_from(s@, n as int) =~= spec_lines(s@));
            }
            i = n;
        } else {
            let next = if s.get_char(j) == '\r' && j + 1 < n && s.get_char(j + 1) == '\n' {
                j + 2
            } else {
                j + 1
            };
            proof {
                assert(lines_from(s@, i as int) == seq![piece@] + lines_from(s@, next as int));
                assert(line_views(lines@) + lines_from(s@, next as int) =~= spec_lines(s@));
            }
            i = next;
        }
    }
    lines
}

// ---------------------------------------------------------------------------
// Whole programs
// ---------------------------------------------------------------------------

/// Mathematical image of a [`SyntaxError`].
pub ghost struct SyntaxErrorV {
    pub line: int,
    pub col: int,
    pub kind: SyntaxErrorKind,
}

/// One syntax error: the zero-based line it stands on, the zero-based column
/// within that line where it was found, and what went wrong.
#[derive(Debug, Clone, Copy, PartialEq, Eq)]
pub struct SyntaxError {
    pub line: usize,
    pub col: usize,
    pub kind: SyntaxErrorKind,
}

impl View for SyntaxError {
    type V = SyntaxErrorV;

    open spec fn view(&self) -> SyntaxErrorV {
        SyntaxErrorV { line: self.line as int, col: self.col as int, kind: self.kind }
    }
}

impl SyntaxError {
    /// A short description of what went wrong.
    pub fn message(&self) -> (r: &'static str)
        ensures
            self.kind == SyntaxErrorKind::MalformedLine ==> r@ == "malformed line"@,
            self.kind == SyntaxErrorKind::UnknownOpcode ==> r@ == "unknown opcode"@,
            self.kind == SyntaxErrorKind::BadIntLiteral ==> r@ == "malformed integer literal"@,
    {
        match self.kind {
            SyntaxErrorKind::MalformedLine => "malformed line",
            SyntaxErrorKind::UnknownOpcode => "unknown opcode",
            SyntaxErrorKind::BadIntLiteral => "malformed integer literal",
        }
    }
}

/// The errors of an exec error vector, viewed, in order.
pub open spec fn error_views(v: Seq<SyntaxError>) -> Seq<SyntaxErrorV> {
    v.map_values(|e: SyntaxError| e@)
}

/// The statements that the lines from index `k` on contribute, in order.
pub open spec fn stmts_of_lines(ls: Seq<Seq<char>>, k: int) -> Seq<StmtView>
    decreases ls.len() - k,
{
    if !(0 <= k < ls.len()) {
        seq![]
    } else {
        let rest = stmts_of_lines(ls, k + 1);
        match scan_line(ls[k]) {
            LineScan::OneStmt(st) => seq![st] + rest,
            LineScan::LabelledStmt(st, st2) => seq![st, st2] + rest,
            _ => rest,
        }
    }
}

/// The syntax errors that the lines from index `k` on raise, in order.
pub open spec fn errors_of_lines(ls: Seq<Seq<char>>, k: int) -> Seq<SyntaxErrorV>
    decreases ls.len() - k,
{
    if !(0 <= k < ls.len()) {
        seq![]
    } else {
        let rest = errors_of_lines(ls, k + 1);
        match scan_line(ls[k]) {
            LineScan::LineErr(kind, col) => seq![
                SyntaxErrorV { line: k, col: col, kind: kind },
            ] + rest,
            _ => rest,
        }
    }
}

/// The statements of a well-formed source text, in source order, with
/// comment and blank lines elided.
pub open spec fn spec_stmts(s: Seq<char>) -> Seq<StmtView> {
    stmts_of_lines(spec_lines(s), 0)
}

/// All the syntax errors of a source text, in source order.
pub open spec fn spec_errors(s: Seq<char>) -> Seq<SyntaxErrorV> {
    errors_of_lines(spec_lines(s), 0)
}

/// Parses assembly source text into a program.
///
/// The source is read line by line; a line is blank, a comment, or one
/// statement with optional indentation and an optional trailing comment.
/// When every line is well formed the ordered statements come back as a
/// program; otherwise all the syntax errors found in the pass come back
/// together, and no partial program is returned.
pub fn program(src: &str) -> (r: Result<Program, Vec<SyntaxError>>)
    ensures
        r is Ok <==> spec_errors(src@).len() == 0,
        r matches Ok(p) ==> p@ == spec_stmts(src@),
        r matches Err(es) ==> error_views(es@) == spec_errors(src@),
{
    let lines = split_lines(src);
    let ghost ls = line_views(lines@);
    let mut stmts: Vec<Stmt> = Vec::new();
    let mut errors: Vec<SyntaxError> = Vec::new();
    let mut k: usize = 0;
    proof {
        assert(stmt_views(stmts@) + stmts_of_lines(ls, 0) =~= stmts_of_lines(ls, 0));
        assert(error_views(errors@) + errors_of_lines(ls, 0) =~= errors_of_lines(ls, 0));
    }
    while k < lines.len()
        invariant
            k <= lines.len(),
            ls == line_views(lines@),
            stmt_views(stmts@) + stmts_of_lines(ls, k as int) == stmts_of_lines(ls, 0),
            error_views(errors@) + errors_of_lines(ls, k as int) == errors_of_lines(ls, 0),
        decreases lines.len() - k,
    {
        let line: &str = lines[k];
        proof {
            assert(ls[k as int] == line@);
        }
        match parse_line(line) {
            LineToken::NoStmt => {
                proof {
                    assert(stmts_of_lines(ls, k as int) == stmts_of_lines(ls, k as int + 1));
                    assert(errors_of_lines(ls, k as int) == errors_of_lines(ls, k as int + 1));
                }
            },
            LineToken::OneStmt(st) => {
                let ghost before = stmt_views(stmts@);
                let ghost stv = st@;
                stmts.push(st);
                proof {
                    assert(stmt_views(stmts@) =~= before.push(stv));
                    assert(stmts_of_lines(ls, k as int) == seq![stv] + stmts_of_lines(
                        ls,
                        k as int + 1,
                    ));
                    assert(stmt_views(stmts@) + stmts_of_lines(ls, k as int + 1)
                        =~= stmts_of_lines(ls, 0));
                    assert(errors_of_lines(ls, k as int) == errors_of_lines(ls, k as int + 1));
                }
            },
            LineToken::LabelledStmt(st, st2) => {
                let ghost before = stmt_views(stmts@);
                let ghost stv = st@;
                let ghost stv2 = st2@;
                stmts.push(st);
                stmts.push(st2);
                proof {
                    assert(stmt_views(stmts@) =~= before.push(stv).push(stv2));
                    assert(stmts_of_lines(ls, k as int) == seq![stv, stv2] + stmts_of_lines(
                        ls,
                        k as int + 1,
                    ));
                    assert(stmt_views(stmts@) + stmts_of_lines(ls, k as int + 1)
                        =~= stmts_of_lines(ls, 0));
                    assert(errors_of_lines(ls, k as int) == errors_of_lines(ls, k as int + 1));
                }
            },
            LineToken::LineErr(kind, col) => {
                let ghost before = error_views(errors@);
                let e = SyntaxError { line: k, col: col, kind: kind };
                errors.push(e);
                proof {
                    assert(error_views(errors@) =~= before.push(e@));
                    assert(errors_of_lines(ls, k as int) == seq![e@] + errors_of_lines(
                        ls,
                        k as int + 1,
                    ));
                    assert(error_views(errors@) + errors_of_lines(ls, k as int + 1)
                        =~= errors_of_lines(ls, 0));
                    assert(stmts_of_lines(ls, k as int) == stmts_of_lines(ls, k as int + 1));
                }
            },
        }
        k = k + 1;
    }
    proof {
        assert(stmts_of_lines(ls, k as int) =~= Seq::<StmtView>::empty());
        assert(errors_of_lines(ls, k as int) =~= Seq::<SyntaxErrorV>::empty());
        assert(stmt_views(stmts@) =~= stmt_views(stmts@) + stmts_of_lines(ls, k as int));
        assert(error_views(errors@) =~= error_views(errors@) + errors_of_lines(ls, k as int));
    }
    if errors.len() == 0 {
        proof {
            assert(error_views(errors@) =~= Seq::<SyntaxErrorV>::empty());
        }
        Ok(Program(stmts))
    } else {
        Err(errors)
    }
}

/// Parsing is deterministic: equal source texts yield structurally equal
/// statement sequences and equal error lists, with no hidden state.
pub proof fn lemma_parse_deterministic(s1: Seq<char>, s2: Seq<char>)
    requires
        s1 == s2,
    ensures
        spec_stmts(s1) == spec_stmts(s2),
        spec_errors(s1) == spec_errors(s2),
{
}

} // verus!
