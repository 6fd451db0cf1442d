use crate::ast::{
    Address, AddressView, CpgU8, CplU8, ExtProcRef, Jmp, JmpTrue, Operation, OperationView,
    Procedure, ProcedureView, PushU64, PushU8, SetU8, Spd, Spi, Tree, TreeView,
};
use crate::lexer::{tokens_view, Opcode, Token, TokenView};
use vstd::prelude::*;

verus! {

/// Why a sequence of tokens is no program.
#[derive(Clone, Copy, Debug, PartialEq, Eq)]
pub enum ParseError {
    /// The sequence holds no end-of-input token.
    SyntaxError,
    /// Where a procedure has to stand, the tokens are none.
    UnknownProcedure,
}

/// What stands in the body of a procedure.
pub enum Rule {
    Operation(Operation),
    Label(String),
}

/// What a `Rule` stands for.
pub enum RuleView {
    Operation(OperationView),
    Label(Seq<char>),
}

impl View for Rule {
    type V = RuleView;

    open spec fn view(&self) -> RuleView {
        match self {
            Rule::Operation(operation) => RuleView::Operation(operation@),
            Rule::Label(name) => RuleView::Label(name@),
        }
    }
}

/// The token at `pos`, and the end-of-input token where the sequence has
/// none there.
pub open spec fn token_at(tokens: Seq<TokenView>, pos: int) -> TokenView {
    if 0 <= pos < tokens.len() {
        tokens[pos]
    } else {
        TokenView::EOF
    }
}

/// The address that `token` is, where an operation takes any address.
pub open spec fn address_operand(token: TokenView) -> Option<AddressView> {
    match token {
        TokenView::IntLiteral(value) => Some(AddressView::IntLiteral(value)),
        TokenView::LabelRef(name) => Some(AddressView::Label(name)),
        TokenView::ProcRef(name) => Some(AddressView::ProcRef(name)),
        TokenView::ExtProcRef { module, procedure } => Some(
            AddressView::ExtProcRef { module, procedure },
        ),
        _ => None,
    }
}

/// The number that `token` is, where an operation takes a literal only.
pub open spec fn literal(token: TokenView) -> Option<u64> {
    match token {
        TokenView::IntLiteral(value) => Some(value),
        _ => None,
    }
}

/// The low eight bits of `value`.
pub open spec fn low_byte(value: u64) -> u8 {
    (value % 0x100) as u8
}

/// The operation of an instruction that takes any address.
pub open spec fn with_address(
    operand: TokenView,
    make: spec_fn(AddressView) -> OperationView,
) -> Option<(OperationView, int)> {
    match address_operand(operand) {
        Some(address) => Some((make(address), 1)),
        None => None,
    }
}

/// The operation of an instruction that takes a literal only.
pub open spec fn with_literal(
    operand: TokenView,
    make: spec_fn(u64) -> OperationView,
) -> Option<(OperationView, int)> {
    match literal(operand) {
        Some(value) => Some((make(value), 1)),
        None => None,
    }
}

/// The operation that the mnemonic `opcode` makes with the token `operand`
/// behind it, and the number of tokens that its operand takes: none for an
/// instruction without operand, and one otherwise. None where the
/// instruction needs an operand and the token is not one that it takes.
pub open spec fn operation_of(opcode: Opcode, operand: TokenView) -> Option<(OperationView, int)> {
    match opcode {
        Opcode::CmpU8 => Some((OperationView::CmpU8, 0)),
        Opcode::Halt => Some((OperationView::Halt, 0)),
        Opcode::Jmps => Some((OperationView::Jmps, 0)),
        Opcode::PopU8 => Some((OperationView::PopU8, 0)),
        Opcode::Jmp => with_address(operand, |a: AddressView| OperationView::Jmp(a)),
        Opcode::JmpTrue => with_address(operand, |a: AddressView| OperationView::JmpTrue(a)),
        Opcode::PushU64 => with_address(operand, |a: AddressView| OperationView::PushU64(a)),
        Opcode::SetU8 => with_address(operand, |a: AddressView| OperationView::SetU8(a)),
        Opcode::CpgU8 => with_address(operand, |a: AddressView| OperationView::CpgU8(a)),
        Opcode::CplU8 => with_address(operand, |a: AddressView| OperationView::CplU8(a)),
        Opcode::PushU8 => with_literal(operand, |v: u64| OperationView::PushU8(low_byte(v))),
        Opcode::Spi => with_literal(operand, |v: u64| OperationView::Spi(v)),
        Opcode::Spd => with_literal(operand, |v: u64| OperationView::Spd(v)),
    }
}

/// The rule that starts at `pos`, and where it ends: a label, or an
/// instruction with its operand.
pub open spec fn rule_at(tokens: Seq<TokenView>, pos: int) -> Option<(RuleView, int)> {
    match token_at(tokens, pos) {
        TokenView::Opcode(opcode) => match operation_of(opcode, token_at(tokens, pos + 1)) {
            Some((operation, used)) => Some((RuleView::Operation(operation), pos + 1 + used)),
            None => None,
        },
        TokenView::Label(name) => Some((RuleView::Label(name), pos + 1)),
        _ => None,
    }
}

/// The first position from `pos` on that holds no newline token.
pub open spec fn skip_newlines(tokens: Seq<TokenView>, pos: int) -> int
    decreases tokens.len() - pos,
{
    if 0 <= pos < tokens.len() && tokens[pos] is NewLine {
        skip_newlines(tokens, pos + 1)
    } else {
        pos
    }
}

/// `procedure` with `rule` behind what it holds: a label stands for the
/// operation that follows it, so it records how many operations precede it.
pub open spec fn with_rule(procedure: ProcedureView, rule: RuleView) -> ProcedureView {
    match rule {
        RuleView::Operation(operation) => ProcedureView {
            labels: procedure.labels,
            operations: procedure.operations.push(operation),
        },
        RuleView::Label(name) => ProcedureView {
            labels: procedure.labels.push((name, procedure.operations.len())),
            operations: procedure.operations,
        },
    }
}

/// The body of a procedure from `pos` on, behind what `so_far` holds of it,
/// and the position of the `end` that closes it. The body ends where `end`
/// stands at the place of a rule; newlines before and behind each rule are
/// passed over.
pub open spec fn rules_from(tokens: Seq<TokenView>, pos: int, so_far: ProcedureView) -> Option<
    (ProcedureView, int),
>
    decreases tokens.len() - pos,
    when pos >= 0
    via rules_from_decreases
{
    if token_at(tokens, pos) is End {
        Some((so_far, pos))
    } else {
        match rule_at(tokens, skip_newlines(tokens, pos)) {
            Some((rule, next)) => rules_from(
                tokens,
                skip_newlines(tokens, next),
                with_rule(so_far, rule),
            ),
            None => None,
        }
    }
}

pub proof fn lemma_skip_newlines(tokens: Seq<TokenView>, pos: int)
    requires
        0 <= pos,
    ensures
        pos <= skip_newlines(tokens, pos),
        pos <= tokens.len() ==> skip_newlines(tokens, pos) <= tokens.len(),
        !(token_at(tokens, skip_newlines(tokens, pos)) is NewLine),
    decreases tokens.len() - pos,
{
    if pos < tokens.len() && tokens[pos] is NewLine {
        lemma_skip_newlines(tokens, pos + 1);
    }
}

/// A rule takes at least one token and ends inside the sequence.
pub proof fn lemma_rule_at(tokens: Seq<TokenView>, pos: int)
    requires
        0 <= pos,
    ensures
        match rule_at(tokens, pos) {
            Some((_, next)) => pos < next <= tokens.len(),
            None => true,
        },
{
}

#[via_fn]
proof fn rules_from_decreases(tokens: Seq<TokenView>, pos: int, so_far: ProcedureView) {
    lemma_skip_newlines(tokens, pos);
    lemma_rule_at(tokens, skip_newlines(tokens, pos));
    if let Some((_, next)) = rule_at(tokens, skip_newlines(tokens, pos)) {
        lemma_skip_newlines(tokens, next);
    }
}

/// The procedure without labels and operations.
pub open spec fn empty_procedure() -> ProcedureView {
    ProcedureView { labels: Seq::empty(), operations: Seq::empty() }
}

/// The procedure that starts at `pos`, under its name, and where it ends:
/// newlines, `proc`, the name as a label, the body, `end` and `proc`.
pub open spec fn procedure_at(tokens: Seq<TokenView>, pos: int) -> Option<
    ((Seq<char>, ProcedureView), int),
> {
    let start = skip_newlines(tokens, pos);
    match (token_at(tokens, start), token_at(tokens, start + 1)) {
        (TokenView::Proc, TokenView::Label(name)) => match rules_from(
            tokens,
            start + 2,
            empty_procedure(),
        ) {
            Some((procedure, end)) => if token_at(tokens, end + 1) is Proc {
                Some(((name, procedure), end + 2))
            } else {
                None
            },
            None => None,
        },
        _ => None,
    }
}

/// The rest of a body ends at or behind the place where it starts, inside the
/// sequence, and at an `end` token.
pub proof fn lemma_rules_from(tokens: Seq<TokenView>, pos: int, so_far: ProcedureView)
    requires
        0 <= pos,
    ensures
        match rules_from(tokens, pos, so_far) {
            Some((_, end)) => pos <= end < tokens.len() && tokens[end] is End,
            None => true,
        },
    decreases tokens.len() - pos,
{
    if !(token_at(tokens, pos) is End) {
        lemma_skip_newlines(tokens, pos);
        lemma_rule_at(tokens, skip_newlines(tokens, pos));
        if let Some((rule, next)) = rule_at(tokens, skip_newlines(tokens, pos)) {
            lemma_skip_newlines(tokens, next);
            lemma_rules_from(tokens, skip_newlines(tokens, next), with_rule(so_far, rule));
        }
    }
}

/// A procedure takes at least one token and ends inside the sequence.
pub proof fn lemma_procedure_at(tokens: Seq<TokenView>, pos: int)
    requires
        0 <= pos,
    ensures
        match procedure_at(tokens, pos) {
            Some((_, next)) => pos < next <= tokens.len(),
            None => true,
        },
{
    lemma_skip_newlines(tokens, pos);
    lemma_rules_from(tokens, skip_newlines(tokens, pos) + 2, empty_procedure());
}

/// The program whose procedures stand from `pos` on, behind those of
/// `so_far`: one procedure after the other up to the end-of-input token.
pub open spec fn program_from(
    tokens: Seq<TokenView>,
    pos: int,
    so_far: Seq<(Seq<char>, ProcedureView)>,
) -> Result<TreeView, ParseError>
    decreases tokens.len() - pos,
    when pos >= 0
    via program_from_decreases
{
    if token_at(tokens, pos) is EOF {
        Ok(TreeView { procedures: so_far })
    } else {
        match procedure_at(tokens, pos) {
            Some((entry, next)) => program_from(tokens, next, so_far.push(entry)),
            None => Err(ParseError::UnknownProcedure),
        }
    }
}

#[via_fn]
proof fn program_from_decreases(
    tokens: Seq<TokenView>,
    pos: int,
    so_far: Seq<(Seq<char>, ProcedureView)>,
) {
    lemma_procedure_at(tokens, pos);
}

/// The program that `tokens` are, or why they are none. What stands behind
/// the first end-of-input token is not read.
pub open spec fn parsed(tokens: Seq<TokenView>) -> Result<TreeView, ParseError> {
    if exists|i: int| 0 <= i < tokens.len() && tokens[i] is EOF {
        program_from(tokens, 0, Seq::empty())
    } else {
        Err(ParseError::SyntaxError)
    }
}

/// What an optional address stands for.
pub open spec fn address_option_view(address: Option<Address>) -> Option<AddressView> {
    match address {
        Some(a) => Some(a@),
        None => None,
    }
}

/// `result` is what `operation_of` gives for `opcode` with the token at
/// `pos` behind it, and the position behind the operand.
pub open spec fn operation_parsed(
    result: Option<(Rule, usize)>,
    opcode: Opcode,
    tokens: Seq<TokenView>,
    pos: usize,
) -> bool {
    match operation_of(opcode, token_at(tokens, pos as int)) {
        Some((operation, used)) => match result {
            Some((rule, next)) => rule@ == RuleView::Operation(operation) && next == pos + used,
            None => false,
        },
        None => result is None,
    }
}

/// `result` is what `rule_at` gives at `pos`.
pub open spec fn rule_parsed(
    result: Option<(Rule, usize)>,
    tokens: Seq<TokenView>,
    pos: usize,
) -> bool {
    match rule_at(tokens, pos as int) {
        Some((rule, next)) => match result {
            Some((found, leftover)) => found@ == rule && leftover == next,
            None => false,
        },
        None => result is None,
    }
}

/// The address that the token at `pos` is.
fn parse_address(source: &Vec<Token>, pos: usize) -> (address: Option<Address>)
    ensures
        address_option_view(address) == address_operand(
            token_at(tokens_view(source@), pos as int),
        ),
{
    if pos >= source.len() {
        return None;
    }
    match &source[pos] {
        Token::IntLiteral(value) => Some(Address::IntLiteral(*value)),
        Token::LabelRef(value) => Some(Address::Label(value.clone())),
        Token::ProcRef(value) => Some(Address::ProcRef(value.clone())),
        Token::ExtProcRef(value) => Some(
            Address::ExtProcRef(
                ExtProcRef { module: value.module.clone(), procedure: value.procedure.clone() },
            ),
        ),
        _ => None,
    }
}

/// The number that the token at `pos` is.
fn parse_literal(source: &Vec<Token>, pos: usize) -> (value: Option<u64>)
    ensures
        value == literal(token_at(tokens_view(source@), pos as int)),
{
    if pos >= source.len() {
        return None;
    }
    match &source[pos] {
        Token::IntLiteral(value) => Some(*value),
        _ => None,
    }
}

/// The low eight bits of `value`.
fn narrow(value: u64) -> (byte: u8)
    ensures
        byte == low_byte(value),
{
    assert(value & 0xff == value % 0x100) by (bit_vector);
    assert(value & 0xff < 0x100) by (bit_vector);
    (value & 0xff) as u8
}

fn parse_cmp_u8(source: &Vec<Token>, pos: usize) -> (result: Option<(Rule, usize)>)
    ensures
        operation_parsed(result, Opcode::CmpU8, tokens_view(source@), pos),
{
    Some((Rule::Operation(Operation::CmpU8), pos))
}

fn parse_cpg_u8(source: &Vec<Token>, pos: usize) -> (result: Option<(Rule, usize)>)
    requires
        pos <= source.len(),
    ensures
        operation_parsed(result, Opcode::CpgU8, tokens_view(source@), pos),
{
    match parse_address(source, pos) {
        Some(address) => Some((Rule::Operation(Operation::CpgU8(CpgU8 { address })), pos + 1)),
        None => None,
    }
}

fn parse_cpl_u8(source: &Vec<Token>, pos: usize) -> (result: Option<(Rule, usize)>)
    requires
        pos <= source.len(),
    ensures
        operation_parsed(result, Opcode::CplU8, tokens_view(source@), pos),
{
    match parse_address(source, pos) {
        Some(address) => Some((Rule::Operation(Operation::CplU8(CplU8 { address })), pos + 1)),
        None => None,
    }
}

fn parse_halt(source: &Vec<Token>, pos: usize) -> (result: Option<(Rule, usize)>)
    ensures
        operation_parsed(result, Opcode::Halt, tokens_view(source@), pos),
{
    Some((Rule::Operation(Operation::Halt), pos))
}

fn parse_jmp(source: &Vec<Token>, pos: usize) -> (result: Option<(Rule, usize)>)
    requires
        pos <= source.len(),
    ensures
        operation_parsed(result, Opcode::Jmp, tokens_view(source@), pos),
{
    match parse_address(source, pos) {
        Some(address) => Some((Rule::Operation(Operation::Jmp(Jmp { address })), pos + 1)),
        None => None,
    }
}

fn parse_jmps(source: &Vec<Token>, pos: usize) -> (result: Option<(Rule, usize)>)
    ensures
        operation_parsed(result, Opcode::Jmps, tokens_view(source@), pos),
{
    Some((Rule::Operation(Operation::Jmps), pos))
}

fn parse_jmp_true(source: &Vec<Token>, pos: usize) -> (result: Option<(Rule, usize)>)
    requires
        pos <= source.len(),
    ensures
        operation_parsed(result, Opcode::JmpTrue, tokens_view(source@), pos),
{
    match parse_address(source, pos) {
        Some(address) => Some(
            (Rule::Operation(Operation::JmpTrue(JmpTrue { address })), pos + 1),
        ),
        None => None,
    }
}

fn parse_pop_u8(source: &Vec<Token>, pos: usize) -> (result: Option<(Rule, usize)>)
    ensures
        operation_parsed(result, Opcode::PopU8, tokens_view(source@), pos),
{
    Some((Rule::Operation(Operation::PopU8), pos))
}

fn parse_push_u64(source: &Vec<Token>, pos: usize) -> (result: Option<(Rule, usize)>)
    requires
        pos <= source.len(),
    ensures
        operation_parsed(result, Opcode::PushU64, tokens_view(source@), pos),
{
    match parse_address(source, pos) {
        Some(address) => Some(
            (Rule::Operation(Operation::PushU64(PushU64 { address })), pos + 1),
        ),
        None => None,
    }
}

fn parse_push_u8(source: &Vec<Token>, pos: usize) -> (result: Option<(Rule, usize)>)
    requires
        pos <= source.len(),
    ensures
        operation_parsed(result, Opcode::PushU8, tokens_view(source@), pos),
{
    match parse_literal(source, pos) {
        Some(value) => Some(
            (Rule::Operation(Operation::PushU8(PushU8 { value: narrow(value) })), pos + 1),
        ),
        None => None,
    }
}

fn parse_set_u8(source: &Vec<Token>, pos: usize) -> (result: Option<(Rule, usize)>)
    requires
        pos <= source.len(),
    ensures
        operation_parsed(result, Opcode::SetU8, tokens_view(source@), pos),
{
    match parse_address(source, pos) {
        Some(address) => Some((Rule::Operation(Operation::SetU8(SetU8 { address })), pos + 1)),
        None => None,
    }
}

fn parse_spd(source: &Vec<Token>, pos: usize) -> (result: Option<(Rule, usize)>)
    requires
        pos <= source.len(),
    ensures
        operation_parsed(result, Opcode::Spd, tokens_view(source@), pos),
{
    match parse_literal(source, pos) {
        Some(value) => Some((Rule::Operation(Operation::Spd(Spd { value })), pos + 1)),
        None => None,
    }
}

fn parse_spi(source: &Vec<Token>, pos: usize) -> (result: Option<(Rule, usize)>)
    requires
        pos <= source.len(),
    ensures
        operation_parsed(result, Opcode::Spi, tokens_view(source@), pos),
{
    match parse_literal(source, pos) {
        Some(value) => Some((Rule::Operation(Operation::Spi(Spi { value })), pos + 1)),
        None => None,
    }
}

/// The rule that starts at `pos`, and where it ends.
fn parse_rule(source: &Vec<Token>, pos: usize) -> (result: Option<(Rule, usize)>)
    ensures
        rule_parsed(result, tokens_view(source@), pos),
{
    if pos >= source.len() {
        return None;
    }
    match &source[pos] {
        Token::Opcode(opcode) => {
            match opcode {
                Opcode::CmpU8 => parse_cmp_u8(source, pos + 1),
                Opcode::CpgU8 => parse_cpg_u8(source, pos + 1),
                Opcode::CplU8 => parse_cpl_u8(source, pos + 1),
                Opcode::Halt => parse_halt(source, pos + 1),
                Opcode::Jmp => parse_jmp(source, pos + 1),
                Opcode::Jmps => parse_jmps(source, pos + 1),
                Opcode::JmpTrue => parse_jmp_true(source, pos + 1),
                Opcode::PopU8 => parse_pop_u8(source, pos + 1),
                Opcode::PushU64 => parse_push_u64(source, pos + 1),
                Opcode::PushU8 => parse_push_u8(source, pos + 1),
                Opcode::SetU8 => parse_set_u8(source, pos + 1),
                Opcode::Spd => parse_spd(source, pos + 1),
                Opcode::Spi => parse_spi(source, pos + 1),
            }
        },
        Token::Label(label) => Some((Rule::Label(label.clone()), pos + 1)),
        _ => None,
    }
}

/// The first position from `pos` on that holds no newline token.
fn skip_newline_tokens(source: &Vec<Token>, pos: usize) -> (next: usize)
    requires
        pos <= source.len(),
    ensures
        next == skip_newlines(tokens_view(source@), pos as int),
        pos <= next <= source.len(),
{
    let mut next = pos;
    while next < source.len() && matches!(source[next], Token::NewLine)
        invariant
            pos <= next <= source.len(),
            skip_newlines(tokens_view(source@), pos as int) == skip_newlines(
                tokens_view(source@),
                next as int,
            ),
        decreases source.len() - next,
    {
        next += 1;
    }
    next
}

/// Whether the token at `pos` is `end`.
fn is_end_at(source: &Vec<Token>, pos: usize) -> (r: bool)
    ensures
        r == (token_at(tokens_view(source@), pos as int) is End),
{
    pos < source.len() && matches!(source[pos], Token::End)
}

/// Whether the token at `pos` is `proc`.
fn is_proc_at(source: &Vec<Token>, pos: usize) -> (r: bool)
    ensures
        r == (token_at(tokens_view(source@), pos as int) is Proc),
{
    pos < source.len() && matches!(source[pos], Token::Proc)
}

/// Whether the token at `pos` is the end of input, or the sequence has no
/// token there.
fn is_eof_at(source: &Vec<Token>, pos: usize) -> (r: bool)
    ensures
        r == (token_at(tokens_view(source@), pos as int) is EOF),
{
    pos >= source.len() || matches!(source[pos], Token::EOF)
}

/// `procedure` with `rule` behind what it holds.
fn add_rule(procedure: &mut Procedure, rule: Rule)
    requires
        old(procedure)@.wf(),
    ensures
        final(procedure)@ == with_rule(old(procedure)@, rule@),
        final(procedure)@.wf(),
{
    let ghost before = procedure@;
    match rule {
        Rule::Operation(operation) => {
            procedure.operations.push(operation);
            assert(procedure@.operations =~= before.operations.push(operation@));
            assert(procedure@.labels =~= before.labels);
        },
        Rule::Label(label) => {
            let index = procedure.operations.len();
            procedure.labels.push((label, index));
            assert(procedure@.labels =~= before.labels.push((label@, index as nat)));
            assert(procedure@.operations =~= before.operations);
        },
    }
}

/// The procedure that starts at `pos`, with its name, and where it ends.
fn parse_proc(source: &Vec<Token>, pos: usize) -> (result: Option<(String, Procedure, usize)>)
    requires
        pos <= source.len(),
    ensures
        match result {
            Some((name, procedure, next)) => procedure_at(tokens_view(source@), pos as int)
                == Some(((name@, procedure@), next as int)) && procedure@.wf() && pos < next
                <= source.len(),
            None => procedure_at(tokens_view(source@), pos as int) is None,
        },
{
    let ghost tokens = tokens_view(source@);
    let start = skip_newline_tokens(source, pos);
    if !is_proc_at(source, start) {
        return None;
    }
    if start + 1 >= source.len() {
        return None;
    }
    let name = match &source[start + 1] {
        Token::Label(label) => label.clone(),
        _ => {
            return None;
        },
    };
    let mut procedure = Procedure { labels: Vec::new(), operations: Vec::new() };
    let mut at = start + 2;
    proof {
        assert(procedure@.labels =~= Seq::empty());
        assert(procedure@.operations =~= Seq::empty());
    }
    while !is_end_at(source, at)
        invariant
            tokens == tokens_view(source@),
            start == skip_newlines(tokens, pos as int),
            token_at(tokens, start as int) is Proc,
            token_at(tokens, start + 1) == TokenView::Label(name@),
            start + 2 <= at <= source.len(),
            procedure@.wf(),
            rules_from(tokens, start + 2, empty_procedure()) == rules_from(
                tokens,
                at as int,
                procedure@,
            ),
        decreases source.len() - at,
    {
        let rule_start = skip_newline_tokens(source, at);
        proof {
            lemma_rule_at(tokens, rule_start as int);
        }
        match parse_rule(source, rule_start) {
            Some((rule, leftover)) => {
                add_rule(&mut procedure, rule);
                at = skip_newline_tokens(source, leftover);
            },
            None => {
                return None;
            },
        }
    }
    if !is_proc_at(source, at + 1) {
        return None;
    }
    Some((name, procedure, at + 2))
}

/// Reads a program: procedures up to the end-of-input token. The first
/// place at which no procedure can be read ends the run.
pub fn parse(source: &Vec<Token>) -> (result: Result<Tree, ParseError>)
    ensures
        match result {
            Ok(tree) => parsed(tokens_view(source@)) == Ok::<TreeView, ParseError>(tree@)
                && tree@.wf(),
            Err(error) => parsed(tokens_view(source@)) == Err::<TreeView, ParseError>(error),
        },
{
    let ghost tokens = tokens_view(source@);
    let mut closed = false;
    let mut i: usize = 0;
    while i < source.len() && !closed
        invariant
            tokens == tokens_view(source@),
            i <= source.len(),
            closed ==> exists|j: int| 0 <= j < tokens.len() && tokens[j] is EOF,
            !closed ==> forall|j: int| 0 <= j < i ==> !(#[trigger] tokens[j] is EOF),
        decreases source.len() - i, (if closed { 0int } else { 1int }),
    {
        if matches!(source[i], Token::EOF) {
            assert(tokens[i as int] is EOF);
            closed = true;
        } else {
            i += 1;
        }
    }
    if !closed {
        return Err(ParseError::SyntaxError);
    }
    let mut tree = Tree { procedures: Vec::new() };
    let mut pos: usize = 0;
    proof {
        assert(tree@.procedures =~= Seq::empty());
    }
    while !is_eof_at(source, pos)
        invariant
            tokens == tokens_view(source@),
            exists|j: int| 0 <= j < tokens.len() && tokens[j] is EOF,
            pos <= source.len(),
            tree@.wf(),
            program_from(tokens, 0, Seq::empty()) == program_from(
                tokens,
                pos as int,
                tree@.procedures,
            ),
        decreases source.len() - pos,
    {
        match parse_proc(source, pos) {
            Some((name, procedure, leftover)) => {
                let ghost before = tree@.procedures;
                tree.procedures.push((name, procedure));
                proof {
                    assert(tree@.procedures =~= before.push((name@, procedure@)));
                }
                pos = leftover;
            },
            None => {
                return Err(ParseError::UnknownProcedure);
            },
        }
    }
    Ok(tree)
}

/// Reading procedures fails for no other reason than a place at which no
/// procedure can be read.
pub proof fn lemma_program_is_no_syntax_error(
    tokens: Seq<TokenView>,
    pos: int,
    so_far: Seq<(Seq<char>, ProcedureView)>,
)
    requires
        pos >= 0,
    ensures
        program_from(tokens, pos, so_far) != Err::<TreeView, ParseError>(ParseError::SyntaxError),
    decreases tokens.len() - pos,
{
    if !(token_at(tokens, pos) is EOF) {
        lemma_procedure_at(tokens, pos);
        if let Some((entry, next)) = procedure_at(tokens, pos) {
            lemma_program_is_no_syntax_error(tokens, next, so_far.push(entry));
        }
    }
}

} // verus!
