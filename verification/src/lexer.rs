use crate::search::{first_index, lemma_first_index_is, lemma_first_index_none};
use crate::text::{chars_of, lowercase, numeric, parse_unsigned, string_of, unsigned, word_is};
use vstd::prelude::*;
use vstd::slice::slice_subrange;

verus! {

/// The instruction mnemonics.
#[derive(Clone, Copy, Debug, PartialEq, Eq)]
pub enum Opcode {
    Jmp,
    Jmps,
    JmpTrue,
    CmpU8,
    Spi,
    Spd,
    PushU8,
    PushU64,
    PopU8,
    SetU8,
    CplU8,
    CpgU8,
    Halt,
}

/// A procedure of another module, as it is written: `&module.procedure`.
#[derive(Clone, Debug, PartialEq, Eq)]
pub struct ExtProcRef {
    pub module: String,
    pub procedure: String,
}

#[derive(Clone, Debug, PartialEq, Eq)]
pub enum Token {
    IntLiteral(u64),
    NewLine,
    Proc,
    Opcode(Opcode),
    /// `name:`
    Label(String),
    /// `&name`
    LabelRef(String),
    /// `&this.name`
    ProcRef(String),
    ExtProcRef(ExtProcRef),
    End,
    EOF,
}

/// Why a text cannot be split into tokens.
#[derive(Clone, Debug, PartialEq, Eq)]
pub enum LexError {
    /// The word that is no token.
    InvalidToken(String),
}

/// What a `Token` stands for.
pub enum TokenView {
    IntLiteral(u64),
    NewLine,
    Proc,
    Opcode(Opcode),
    Label(Seq<char>),
    LabelRef(Seq<char>),
    ProcRef(Seq<char>),
    ExtProcRef { module: Seq<char>, procedure: Seq<char> },
    End,
    EOF,
}

/// What a `LexError` stands for.
pub enum LexErrorView {
    InvalidToken(Seq<char>),
}

impl View for Token {
    type V = TokenView;

    open spec fn view(&self) -> TokenView {
        match self {
            Token::IntLiteral(value) => TokenView::IntLiteral(*value),
            Token::NewLine => TokenView::NewLine,
            Token::Proc => TokenView::Proc,
            Token::Opcode(opcode) => TokenView::Opcode(*opcode),
            Token::Label(name) => TokenView::Label(name@),
            Token::LabelRef(name) => TokenView::LabelRef(name@),
            Token::ProcRef(name) => TokenView::ProcRef(name@),
            Token::ExtProcRef(r) => TokenView::ExtProcRef {
                module: r.module@,
                procedure: r.procedure@,
            },
            Token::End => TokenView::End,
            Token::EOF => TokenView::EOF,
        }
    }
}

impl View for LexError {
    type V = LexErrorView;

    open spec fn view(&self) -> LexErrorView {
        match self {
            LexError::InvalidToken(text) => LexErrorView::InvalidToken(text@),
        }
    }
}

/// What a sequence of tokens stands for.
pub open spec fn tokens_view(tokens: Seq<Token>) -> Seq<TokenView> {
    tokens.map_values(|t: Token| t@)
}

/// What an optional token stands for.
pub open spec fn token_option_view(token: Option<Token>) -> Option<TokenView> {
    match token {
        Some(t) => Some(t@),
        None => None,
    }
}

/// `s` with each occurrence of `first` followed by `second` replaced by one
/// newline, found from left to right.
pub open spec fn replaced_pair(s: Seq<char>, first: char, second: char) -> Seq<char>
    decreases s.len(),
{
    if s.len() == 0 {
        s
    } else if s.len() >= 2 && s[0] == first && s[1] == second {
        seq!['\n'] + replaced_pair(s.skip(2), first, second)
    } else {
        seq![s[0]] + replaced_pair(s.skip(1), first, second)
    }
}

/// `s` with each carriage return replaced by a newline.
pub open spec fn replaced_returns(s: Seq<char>) -> Seq<char> {
    s.map_values(
        |c: char|
            if c == '\r' {
                '\n'
            } else {
                c
            },
    )
}

/// `source` with its line ends made newlines: first each carriage return
/// with a newline behind it, then each newline with a carriage return behind
/// it, then each carriage return that is left.
pub open spec fn normalized(source: Seq<char>) -> Seq<char> {
    replaced_returns(replaced_pair(replaced_pair(source, '\r', '\n'), '\n', '\r'))
}

/// A space or a tab.
pub open spec fn is_blank(c: char) -> bool {
    c == ' ' || c == '\t'
}

/// The first position from `from` on that holds no blank.
pub open spec fn skip_blanks(s: Seq<char>, from: int) -> int
    decreases s.len() - from,
{
    if 0 <= from < s.len() && is_blank(s[from]) {
        skip_blanks(s, from + 1)
    } else {
        from
    }
}

/// The first position from `from` on that holds a blank or a newline.
pub open spec fn word_end(s: Seq<char>, from: int) -> int
    decreases s.len() - from,
{
    if 0 <= from < s.len() && !is_blank(s[from]) && s[from] != '\n' {
        word_end(s, from + 1)
    } else {
        from
    }
}

/// Where the next word of `s` from `from` on starts and ends: a newline by
/// itself, or as many characters as follow without a blank or a newline. None
/// where only blanks are left.
pub open spec fn next_word(s: Seq<char>, from: int) -> Option<(int, int)> {
    let start = skip_blanks(s, from);
    if start >= s.len() {
        None
    } else if s[start] == '\n' {
        Some((start, start + 1))
    } else {
        Some((start, word_end(s, start)))
    }
}

/// What the two character tests say of one character.
#[derive(Clone, Copy, Debug, PartialEq, Eq)]
pub struct CharKind {
    pub lowercase: bool,
    pub numeric: bool,
}

/// The kind of `c`.
pub open spec fn kind_of(c: char) -> CharKind {
    CharKind { lowercase: lowercase(c), numeric: numeric(c) }
}

/// The kinds of the characters of `s`.
pub open spec fn kinds_of(s: Seq<char>) -> Seq<CharKind> {
    s.map_values(|c: char| kind_of(c))
}

/// The kinds of the characters of a name: at least one character, each
/// lowercase or numeric, the first of them lowercase.
pub open spec fn names(kinds: Seq<CharKind>) -> bool {
    &&& kinds.len() > 0
    &&& kinds[0].lowercase
    &&& forall|i: int| 0 <= i < kinds.len() ==> (#[trigger] kinds[i]).lowercase || kinds[i].numeric
}

/// A name: lowercase and numeric characters, the first of them lowercase.
pub open spec fn is_identifier(s: Seq<char>) -> bool {
    names(kinds_of(s))
}

/// A decimal number.
pub open spec fn int_literal_dec(text: Seq<char>) -> Option<TokenView> {
    match unsigned(text, 10) {
        Some(value) => Some(TokenView::IntLiteral(value)),
        None => None,
    }
}

/// `0x` and a hexadecimal number.
pub open spec fn int_literal_hex(text: Seq<char>) -> Option<TokenView> {
    if text.len() >= 2 && text[0] == '0' && text[1] == 'x' {
        match unsigned(text.skip(2), 16) {
            Some(value) => Some(TokenView::IntLiteral(value)),
            None => None,
        }
    } else {
        None
    }
}

/// The word `proc`.
pub open spec fn proc_keyword(text: Seq<char>) -> Option<TokenView> {
    if text == "proc"@ {
        Some(TokenView::Proc)
    } else {
        None
    }
}

/// The word `end`.
pub open spec fn end_keyword(text: Seq<char>) -> Option<TokenView> {
    if text == "end"@ {
        Some(TokenView::End)
    } else {
        None
    }
}

/// A newline by itself.
pub open spec fn newline(text: Seq<char>) -> Option<TokenView> {
    if text == "\n"@ {
        Some(TokenView::NewLine)
    } else {
        None
    }
}

/// The instruction that `text` is the mnemonic of.
pub open spec fn mnemonic(text: Seq<char>) -> Option<Opcode> {
    if text == "jmp"@ {
        Some(Opcode::Jmp)
    } else if text == "jmps"@ {
        Some(Opcode::Jmps)
    } else if text == "jmp_true"@ {
        Some(Opcode::JmpTrue)
    } else if text == "cmp_u8"@ {
        Some(Opcode::CmpU8)
    } else if text == "spi"@ {
        Some(Opcode::Spi)
    } else if text == "spd"@ {
        Some(Opcode::Spd)
    } else if text == "push_u8"@ {
        Some(Opcode::PushU8)
    } else if text == "push_u64"@ {
        Some(Opcode::PushU64)
    } else if text == "pop_u8"@ {
        Some(Opcode::PopU8)
    } else if text == "set_u8"@ {
        Some(Opcode::SetU8)
    } else if text == "cpl_u8"@ {
        Some(Opcode::CplU8)
    } else if text == "cpg_u8"@ {
        Some(Opcode::CpgU8)
    } else if text == "halt"@ {
        Some(Opcode::Halt)
    } else {
        None
    }
}

/// An instruction mnemonic.
pub open spec fn opcode(text: Seq<char>) -> Option<TokenView> {
    match mnemonic(text) {
        Some(op) => Some(TokenView::Opcode(op)),
        None => None,
    }
}

/// A name and a colon.
pub open spec fn label(text: Seq<char>) -> Option<TokenView> {
    if text.len() > 1 && text.last() == ':' && is_identifier(text.drop_last()) {
        Some(TokenView::Label(text.drop_last()))
    } else {
        None
    }
}

/// `&` and a name.
pub open spec fn label_ref(text: Seq<char>) -> Option<TokenView> {
    if text.len() > 1 && text[0] == '&' && is_identifier(text.skip(1)) {
        Some(TokenView::LabelRef(text.skip(1)))
    } else {
        None
    }
}

/// The predicate that holds at the positions where `text` holds a dot.
pub open spec fn dots(text: Seq<char>) -> spec_fn(int) -> bool {
    |i: int| text[i] == '.'
}

/// The two names of `&module.procedure`, parted at the first dot.
pub open spec fn reference_parts(text: Seq<char>) -> Option<(Seq<char>, Seq<char>)> {
    if text.len() > 0 && text[0] == '&' {
        match first_index(text.len() as int, dots(text)) {
            Some(dot) => if is_identifier(text.subrange(1, dot)) && is_identifier(
                text.skip(dot + 1),
            ) {
                Some((text.subrange(1, dot), text.skip(dot + 1)))
            } else {
                None
            },
            None => None,
        }
    } else {
        None
    }
}

/// `&this.` and a name.
pub open spec fn proc_ref(text: Seq<char>) -> Option<TokenView> {
    match reference_parts(text) {
        Some((module, procedure)) => if module == "this"@ {
            Some(TokenView::ProcRef(procedure))
        } else {
            None
        },
        None => None,
    }
}

/// `&`, the name of a module other than `this`, a dot and a name.
pub open spec fn ext_proc_ref(text: Seq<char>) -> Option<TokenView> {
    match reference_parts(text) {
        Some((module, procedure)) => if module == "this"@ {
            None
        } else {
            Some(TokenView::ExtProcRef { module, procedure })
        },
        None => None,
    }
}

/// The first of the two that is some token.
pub open spec fn or_else(a: Option<TokenView>, b: Option<TokenView>) -> Option<TokenView> {
    if a is Some {
        a
    } else {
        b
    }
}

/// The token that the word `text` is: the first kind, in this order, that it
/// fits.
pub open spec fn classified(text: Seq<char>) -> Option<TokenView> {
    or_else(
        int_literal_dec(text),
        or_else(
            int_literal_hex(text),
            or_else(
                proc_keyword(text),
                or_else(
                    opcode(text),
                    or_else(
                        newline(text),
                        or_else(
                            label(text),
                            or_else(
                                label_ref(text),
                                or_else(
                                    proc_ref(text),
                                    or_else(ext_proc_ref(text), end_keyword(text)),
                                ),
                            ),
                        ),
                    ),
                ),
            ),
        ),
    )
}

pub proof fn lemma_skip_blanks(s: Seq<char>, from: int)
    requires
        0 <= from,
    ensures
        from <= skip_blanks(s, from),
        from <= s.len() ==> skip_blanks(s, from) <= s.len(),
        forall|i: int| from <= i < skip_blanks(s, from) ==> is_blank(#[trigger] s[i]),
        skip_blanks(s, from) < s.len() ==> !is_blank(s[skip_blanks(s, from)]),
    decreases s.len() - from,
{
    if from < s.len() && is_blank(s[from]) {
        lemma_skip_blanks(s, from + 1);
    }
}

pub proof fn lemma_word_end(s: Seq<char>, from: int)
    requires
        0 <= from,
    ensures
        from <= word_end(s, from),
        from <= s.len() ==> word_end(s, from) <= s.len(),
        from < s.len() && !is_blank(s[from]) && s[from] != '\n' ==> from < word_end(s, from),
        forall|i: int|
            from <= i < word_end(s, from) ==> !is_blank(#[trigger] s[i]) && s[i] != '\n',
        word_end(s, from) < s.len() ==> is_blank(s[word_end(s, from)]) || s[word_end(s, from)]
            == '\n',
    decreases s.len() - from,
{
    if from < s.len() && !is_blank(s[from]) && s[from] != '\n' {
        lemma_word_end(s, from + 1);
    }
}

/// A word is not empty and lies in the text, at or after the place from
/// which it was looked for.
pub proof fn lemma_next_word(s: Seq<char>, from: int)
    requires
        0 <= from,
    ensures
        match next_word(s, from) {
            Some((start, end)) => from <= start < end <= s.len(),
            None => true,
        },
{
    lemma_skip_blanks(s, from);
    lemma_word_end(s, skip_blanks(s, from));
}

/// The tokens of `s` from `from` on and the end-of-input token behind them,
/// or the first word that is no token.
pub open spec fn tokens_from(s: Seq<char>, from: int) -> Result<Seq<TokenView>, LexErrorView>
    decreases s.len() - from,
    when from >= 0
    via tokens_from_decreases
{
    match next_word(s, from) {
        None => Ok(seq![TokenView::EOF]),
        Some((start, end)) => match classified(s.subrange(start, end)) {
            None => Err(LexErrorView::InvalidToken(s.subrange(start, end))),
            Some(token) => match tokens_from(s, end) {
                Ok(rest) => Ok(seq![token] + rest),
                Err(error) => Err(error),
            },
        },
    }
}

#[via_fn]
proof fn tokens_from_decreases(s: Seq<char>, from: int) {
    lemma_next_word(s, from);
}

/// The tokens of `source`, or the first word of it that is no token.
pub open spec fn lexed(source: Seq<char>) -> Result<Seq<TokenView>, LexErrorView> {
    tokens_from(normalized(source), 0)
}

/// `chars` with each occurrence of `first` followed by `second` replaced by
/// one newline.
fn replace_pair(chars: &Vec<char>, first: char, second: char) -> (out: Vec<char>)
    ensures
        out@ == replaced_pair(chars@, first, second),
{
    let mut out: Vec<char> = Vec::new();
    let mut pos: usize = 0;
    proof {
        assert(chars@.skip(0) =~= chars@);
        assert(out@ + replaced_pair(chars@, first, second) =~= replaced_pair(
            chars@,
            first,
            second,
        ));
    }
    while pos < chars.len()
        invariant
            pos <= chars.len(),
            out@ + replaced_pair(chars@.skip(pos as int), first, second) == replaced_pair(
                chars@,
                first,
                second,
            ),
        decreases chars.len() - pos,
    {
        let ghost rest = chars@.skip(pos as int);
        let ghost before = out@;
        if pos + 1 < chars.len() && chars[pos] == first && chars[pos + 1] == second {
            out.push('\n');
            proof {
                assert(rest.skip(2) =~= chars@.skip(pos + 2));
                assert(out@ + replaced_pair(rest.skip(2), first, second) =~= before
                    + replaced_pair(rest, first, second));
            }
            pos += 2;
        } else {
            out.push(chars[pos]);
            proof {
                assert(rest.skip(1) =~= chars@.skip(pos + 1));
                assert(out@ + replaced_pair(rest.skip(1), first, second) =~= before
                    + replaced_pair(rest, first, second));
            }
            pos += 1;
        }
    }
    proof {
        assert(out@ + replaced_pair(chars@.skip(pos as int), first, second) =~= out@);
    }
    out
}

/// `chars` with each carriage return replaced by a newline.
fn replace_returns(chars: &Vec<char>) -> (out: Vec<char>)
    ensures
        out@ == replaced_returns(chars@),
{
    let mut out: Vec<char> = Vec::new();
    let mut pos: usize = 0;
    while pos < chars.len()
        invariant
            pos <= chars.len(),
            out@ == replaced_returns(chars@).take(pos as int),
        decreases chars.len() - pos,
    {
        let c = chars[pos];
        out.push(
            if c == '\r' {
                '\n'
            } else {
                c
            },
        );
        proof {
            assert(out@ =~= replaced_returns(chars@).take(pos + 1));
        }
        pos += 1;
    }
    proof {
        assert(replaced_returns(chars@).take(pos as int) =~= replaced_returns(chars@));
    }
    out
}

/// The characters of `source`, every kind of line end made one newline.
fn convert_newlines(source: &str) -> (result: Vec<char>)
    ensures
        result@ == normalized(source@),
{
    let chars = chars_of(source);
    let result = replace_pair(&chars, '\r', '\n');
    let result = replace_pair(&result, '\n', '\r');
    replace_returns(&result)
}

/// Where the next word of `source` from `from` on starts and ends.
fn next_token_text(source: &Vec<char>, from: usize) -> (word: Option<(usize, usize)>)
    requires
        from <= source.len(),
    ensures
        match word {
            Some((start, end)) => next_word(source@, from as int) == Some(
                (start as int, end as int),
            ) && from <= start < end <= source.len(),
            None => next_word(source@, from as int) is None,
        },
{
    let mut start = from;
    while start < source.len() && (source[start] == ' ' || source[start] == '\t')
        invariant
            from <= start <= source.len(),
            skip_blanks(source@, from as int) == skip_blanks(source@, start as int),
        decreases source.len() - start,
    {
        start += 1;
    }
    if start == source.len() {
        return None;
    }
    if source[start] == '\n' {
        return Some((start, start + 1));
    }
    let mut end = start + 1;
    while end < source.len() && source[end] != ' ' && source[end] != '\t' && source[end] != '\n'
        invariant
            start < end <= source.len(),
            word_end(source@, start as int) == word_end(source@, end as int),
        decreases source.len() - end,
    {
        end += 1;
    }
    Some((start, end))
}

/// The kind of `c`.
fn char_kind(c: char) -> (kind: CharKind)
    ensures
        kind == kind_of(c),
{
    CharKind { lowercase: c.is_lowercase(), numeric: c.is_numeric() }
}

/// Whether characters of these kinds, in this order, make a name.
pub fn is_name(kinds: &[CharKind]) -> (r: bool)
    ensures
        r == names(kinds@),
{
    if kinds.len() == 0 || !kinds[0].lowercase {
        return false;
    }
    let mut k: usize = 0;
    while k < kinds.len()
        invariant
            k <= kinds.len(),
            forall|i: int| 0 <= i < k ==> (#[trigger] kinds@[i]).lowercase || kinds@[i].numeric,
        decreases kinds.len() - k,
    {
        if !(kinds[k].numeric || kinds[k].lowercase) {
            return false;
        }
        k += 1;
    }
    true
}

/// Whether the characters of `text` from `from` up to `to` are a name.
fn is_identifier_text(text: &[char], from: usize, to: usize) -> (r: bool)
    requires
        from <= to <= text.len(),
    ensures
        r == is_identifier(text@.subrange(from as int, to as int)),
{
    let ghost part = text@.subrange(from as int, to as int);
    let mut kinds: Vec<CharKind> = Vec::new();
    let mut k = from;
    while k < to
        invariant
            from <= k <= to <= text.len(),
            part == text@.subrange(from as int, to as int),
            kinds@ == kinds_of(part).take(k - from),
        decreases to - k,
    {
        kinds.push(char_kind(text[k]));
        proof {
            assert(part[k - from] == text@[k as int]);
            assert(kinds@ =~= kinds_of(part).take(k - from + 1));
        }
        k += 1;
    }
    proof {
        assert(kinds_of(part).take(k - from) =~= kinds_of(part));
    }
    is_name(kinds.as_slice())
}

/// The decimal number that `text` is.
pub fn text_to_intliteraldec(text: &[char]) -> (token: Option<Token>)
    ensures
        token_option_view(token) == int_literal_dec(text@),
{
    proof {
        assert(text@.skip(0) =~= text@);
    }
    match parse_unsigned(text, 0, 10) {
        Some(value) => Some(Token::IntLiteral(value)),
        None => None,
    }
}

/// The hexadecimal number that `text` is.
pub fn text_to_intliteralhex(text: &[char]) -> (token: Option<Token>)
    ensures
        token_option_view(token) == int_literal_hex(text@),
{
    if text.len() < 2 || text[0] != '0' || text[1] != 'x' {
        return None;
    }
    match parse_unsigned(text, 2, 16) {
        Some(value) => Some(Token::IntLiteral(value)),
        None => None,
    }
}

/// The keyword `proc`, where `text` is it.
pub fn text_to_proc(text: &[char]) -> (token: Option<Token>)
    ensures
        token_option_view(token) == proc_keyword(text@),
{
    if word_is(text, "proc") {
        Some(Token::Proc)
    } else {
        None
    }
}

/// The keyword `end`, where `text` is it.
pub fn text_to_end(text: &[char]) -> (token: Option<Token>)
    ensures
        token_option_view(token) == end_keyword(text@),
{
    if word_is(text, "end") {
        Some(Token::End)
    } else {
        None
    }
}

/// The label that `text` declares.
pub fn text_to_label(text: &[char]) -> (token: Option<Token>)
    ensures
        token_option_view(token) == label(text@),
{
    let n = text.len();
    proof {
        if n > 0 {
            assert(text@.drop_last() =~= text@.subrange(0, n - 1));
        }
    }
    if n > 1 && text[n - 1] == ':' && is_identifier_text(text, 0, n - 1) {
        Some(Token::Label(string_of(slice_subrange(text, 0, n - 1))))
    } else {
        None
    }
}

/// The reference to a label that `text` is.
pub fn text_to_labelref(text: &[char]) -> (token: Option<Token>)
    ensures
        token_option_view(token) == label_ref(text@),
{
    let n = text.len();
    proof {
        if n > 0 {
            assert(text@.skip(1) =~= text@.subrange(1, n as int));
        }
    }
    if n > 1 && text[0] == '&' && is_identifier_text(text, 1, n) {
        Some(Token::LabelRef(string_of(slice_subrange(text, 1, n))))
    } else {
        None
    }
}

/// The place of the dot in `&module.procedure`.
fn split_reference(text: &[char]) -> (place: Option<usize>)
    ensures
        match place {
            Some(dot) => 0 < dot < text.len() && reference_parts(text@) == Some(
                (text@.subrange(1, dot as int), text@.skip(dot + 1)),
            ),
            None => reference_parts(text@) is None,
        },
{
    let n = text.len();
    if n == 0 || text[0] != '&' {
        return None;
    }
    let mut dot: usize = 0;
    while dot < n && text[dot] != '.'
        invariant
            dot <= n == text.len(),
            forall|i: int| 0 <= i < dot ==> !#[trigger] dots(text@)(i),
        decreases n - dot,
    {
        dot += 1;
    }
    if dot == n {
        proof {
            lemma_first_index_none(n as int, dots(text@));
        }
        return None;
    }
    proof {
        assert(dots(text@)(dot as int));
        lemma_first_index_is(n as int, dots(text@), dot as int);
        assert(text@.skip(dot + 1) =~= text@.subrange(dot + 1, n as int));
    }
    if is_identifier_text(text, 1, dot) && is_identifier_text(text, dot + 1, n) {
        Some(dot)
    } else {
        None
    }
}

/// The reference to a procedure of this module that `text` is.
pub fn text_to_procref(text: &[char]) -> (token: Option<Token>)
    ensures
        token_option_view(token) == proc_ref(text@),
{
    match split_reference(text) {
        Some(dot) => {
            let module = slice_subrange(text, 1, dot);
            if !word_is(module, "this") {
                return None;
            }
            proof {
                assert(text@.skip(dot + 1) =~= text@.subrange(dot + 1, text.len() as int));
            }
            Some(Token::ProcRef(string_of(slice_subrange(text, dot + 1, text.len()))))
        },
        None => None,
    }
}

/// The reference to a procedure of another module that `text` is.
pub fn text_to_extprocref(text: &[char]) -> (token: Option<Token>)
    ensures
        token_option_view(token) == ext_proc_ref(text@),
{
    match split_reference(text) {
        Some(dot) => {
            if word_is(slice_subrange(text, 1, dot), "this") {
                return None;
            }
            proof {
                assert(text@.skip(dot + 1) =~= text@.subrange(dot + 1, text.len() as int));
            }
            Some(
                Token::ExtProcRef(
                    ExtProcRef {
                        module: string_of(slice_subrange(text, 1, dot)),
                        procedure: string_of(slice_subrange(text, dot + 1, text.len())),
                    },
                ),
            )
        },
        None => None,
    }
}

/// The instruction that `text` is the mnemonic of.
pub fn text_to_opcode(text: &[char]) -> (token: Option<Token>)
    ensures
        token_option_view(token) == opcode(text@),
{
    if word_is(text, "jmp") {
        Some(Token::Opcode(Opcode::Jmp))
    } else if word_is(text, "jmps") {
        Some(Token::Opcode(Opcode::Jmps))
    } else if word_is(text, "jmp_true") {
        Some(Token::Opcode(Opcode::JmpTrue))
    } else if word_is(text, "cmp_u8") {
        Some(Token::Opcode(Opcode::CmpU8))
    } else if word_is(text, "spi") {
        Some(Token::Opcode(Opcode::Spi))
    } else if word_is(text, "spd") {
        Some(Token::Opcode(Opcode::Spd))
    } else if word_is(text, "push_u8") {
        Some(Token::Opcode(Opcode::PushU8))
    } else if word_is(text, "push_u64") {
        Some(Token::Opcode(Opcode::PushU64))
    } else if word_is(text, "pop_u8") {
        Some(Token::Opcode(Opcode::PopU8))
    } else if word_is(text, "set_u8") {
        Some(Token::Opcode(Opcode::SetU8))
    } else if word_is(text, "cpl_u8") {
        Some(Token::Opcode(Opcode::CplU8))
    } else if word_is(text, "cpg_u8") {
        Some(Token::Opcode(Opcode::CpgU8))
    } else if word_is(text, "halt") {
        Some(Token::Opcode(Opcode::Halt))
    } else {
        None
    }
}

/// The newline token, where `text` is a newline by itself.
pub fn text_to_newline(text: &[char]) -> (token: Option<Token>)
    ensures
        token_option_view(token) == newline(text@),
{
    if word_is(text, "\n") {
        Some(Token::NewLine)
    } else {
        None
    }
}

/// The token that the word `text` is.
pub fn text_to_token(text: &[char]) -> (token: Option<Token>)
    ensures
        token_option_view(token) == classified(text@),
{
    let token = text_to_intliteraldec(text);
    if token.is_some() {
        return token;
    }
    let token = text_to_intliteralhex(text);
    if token.is_some() {
        return token;
    }
    let token = text_to_proc(text);
    if token.is_some() {
        return token;
    }
    let token = text_to_opcode(text);
    if token.is_some() {
        return token;
    }
    let token = text_to_newline(text);
    if token.is_some() {
        return token;
    }
    let token = text_to_label(text);
    if token.is_some() {
        return token;
    }
    let token = text_to_labelref(text);
    if token.is_some() {
        return token;
    }
    let token = text_to_procref(text);
    if token.is_some() {
        return token;
    }
    let token = text_to_extprocref(text);
    if token.is_some() {
        return token;
    }
    text_to_end(text)
}

/// The result of `tokens_from` with `done` put before its tokens.
pub open spec fn after(done: Seq<TokenView>, rest: Result<Seq<TokenView>, LexErrorView>) -> Result<
    Seq<TokenView>,
    LexErrorView,
> {
    match rest {
        Ok(tokens) => Ok(done + tokens),
        Err(error) => Err(error),
    }
}

/// Splits `source` into tokens and puts the end-of-input token behind them.
/// A word that is no token ends the run.
pub fn lex(source: &str) -> (result: Result<Vec<Token>, LexError>)
    ensures
        match result {
            Ok(tokens) => lexed(source@) == Ok::<Seq<TokenView>, LexErrorView>(
                tokens_view(tokens@),
            ),
            Err(error) => lexed(source@) == Err::<Seq<TokenView>, LexErrorView>(error@),
        },
{
    let mut tokens: Vec<Token> = Vec::new();
    let chars = convert_newlines(source);
    let mut tokens_available = true;
    let mut pos: usize = 0;
    proof {
        if let Ok(all) = tokens_from(chars@, 0) {
            assert(tokens_view(tokens@) + all =~= all);
        }
    }
    while tokens_available
        invariant
            chars@ == normalized(source@),
            pos <= chars.len(),
            tokens_available ==> lexed(source@) == after(
                tokens_view(tokens@),
                tokens_from(chars@, pos as int),
            ),
            !tokens_available ==> lexed(source@) == Ok::<Seq<TokenView>, LexErrorView>(
                tokens_view(tokens@) + seq![TokenView::EOF],
            ),
        decreases
                chars.len() - pos,
                (if tokens_available {
                    1int
                } else {
                    0int
                }),
    {
        match next_token_text(&chars, pos) {
            Some((start, end)) => {
                let token_text = slice_subrange(chars.as_slice(), start, end);
                let ghost done = tokens_view(tokens@);
                match text_to_token(token_text) {
                    Some(token) => {
                        tokens.push(token);
                        proof {
                            let rest = tokens_from(chars@, end as int);
                            assert(tokens_view(tokens@) =~= done + seq![token@]);
                            if let Ok(more) = rest {
                                assert(done + (seq![token@] + more) =~= tokens_view(tokens@)
                                    + more);
                            }
                        }
                    },
                    None => {
                        return Err(LexError::InvalidToken(string_of(token_text)));
                    },
                }
                pos = end;
            },
            None => {
                tokens_available = false;
            },
        }
    }
    let ghost done = tokens_view(tokens@);
    tokens.push(Token::EOF);
    proof {
        assert(tokens_view(tokens@) =~= done + seq![TokenView::EOF]);
    }
    Ok(tokens)
}

/// The tokens of a text end with the end-of-input token and hold no other
/// one.
pub proof fn law_tokens_end_with_end_of_input(s: Seq<char>, from: int)
    requires
        from >= 0,
        tokens_from(s, from) is Ok,
    ensures
        tokens_from(s, from)->Ok_0.len() > 0,
        tokens_from(s, from)->Ok_0.last() is EOF,
        forall|i: int|
            0 <= i < tokens_from(s, from)->Ok_0.len() - 1 ==> !(
            #[trigger] tokens_from(s, from)->Ok_0[i] is EOF),
    decreases s.len() - from,
{
    lemma_next_word(s, from);
    if let Some((start, end)) = next_word(s, from) {
        law_tokens_end_with_end_of_input(s, end);
        let token = classified(s.subrange(start, end))->0;
        let rest = tokens_from(s, end)->Ok_0;
        let all = tokens_from(s, from)->Ok_0;
        assert(all == seq![token] + rest);
        assert(!(token is EOF));
        assert forall|i: int| 0 <= i < all.len() - 1 implies !(#[trigger] all[i] is EOF) by {
            if i > 0 {
                assert(all[i] == rest[i - 1]);
            }
        }
    }
}

/// A reference with a dot is to a procedure of this module or to one of
/// another module, never both: the module of the second kind is not `this`.
pub proof fn law_references_are_local_or_external(text: Seq<char>)
    ensures
        !(proc_ref(text) is Some && ext_proc_ref(text) is Some),
        reference_parts(text) is Some <==> proc_ref(text) is Some || ext_proc_ref(text) is Some,
        forall|module: Seq<char>, procedure: Seq<char>|
            ext_proc_ref(text) == Some(TokenView::ExtProcRef { module, procedure }) ==> module
                != "this"@,
{
}

} // verus!
