use crate::ast::TreeView;
use crate::format_vmw::{VMWView, VMW};
use crate::generator::{generate, GenerateError};
use crate::lexer::{
    law_tokens_end_with_end_of_input, lex, lexed, normalized, LexError, LexErrorView,
};
use crate::linking::{generated, GenerateErrorView};
use crate::parser::{lemma_program_is_no_syntax_error, parse, parsed, ParseError};
use vstd::prelude::*;

verus! {

/// Why a text cannot be assembled: the error of the stage that refused it.
#[derive(Clone, Debug, PartialEq, Eq)]
pub enum AssembleError {
    Lex(LexError),
    Parse(ParseError),
    Generate(GenerateError),
}

/// What an `AssembleError` stands for.
pub enum AssembleErrorView {
    Lex(LexErrorView),
    Parse(ParseError),
    Generate(GenerateErrorView),
}

impl View for AssembleError {
    type V = AssembleErrorView;

    open spec fn view(&self) -> AssembleErrorView {
        match self {
            AssembleError::Lex(error) => AssembleErrorView::Lex(error@),
            AssembleError::Parse(error) => AssembleErrorView::Parse(*error),
            AssembleError::Generate(error) => AssembleErrorView::Generate(error@),
        }
    }
}

/// What assembling `source` gives: its tokens are read as a program and the
/// program is assembled, and the first stage that fails gives the error.
pub open spec fn assembled(source: Seq<char>) -> Result<VMWView, AssembleErrorView> {
    match lexed(source) {
        Err(error) => Err(AssembleErrorView::Lex(error)),
        Ok(tokens) => match parsed(tokens) {
            Err(error) => Err(AssembleErrorView::Parse(error)),
            Ok(tree) => match generated(tree) {
                Err(error) => Err(AssembleErrorView::Generate(error)),
                Ok(module) => Ok(module),
            },
        },
    }
}

/// Assembles a source text into a module.
pub fn assemble(source: &str) -> (result: Result<VMW, AssembleError>)
    ensures
        match result {
            Ok(module) => assembled(source@) == Ok::<VMWView, AssembleErrorView>(module@),
            Err(error) => assembled(source@) == Err::<VMWView, AssembleErrorView>(error@),
        },
{
    let tokens = match lex(source) {
        Ok(tokens) => tokens,
        Err(error) => {
            return Err(AssembleError::Lex(error));
        },
    };
    let tree = match parse(&tokens) {
        Ok(tree) => tree,
        Err(error) => {
            return Err(AssembleError::Parse(error));
        },
    };
    match generate(&tree) {
        Ok(module) => Ok(module),
        Err(error) => Err(AssembleError::Generate(error)),
    }
}

/// Assembling is a function of the source text alone: two runs on one text
/// end in the same module, byte for byte, or in the same error.
pub proof fn law_assembly_is_deterministic(
    source: Seq<char>,
    first: Result<VMWView, AssembleErrorView>,
    second: Result<VMWView, AssembleErrorView>,
)
    requires
        first == assembled(source),
        second == assembled(source),
    ensures
        first == second,
        first is Ok ==> first->Ok_0.bin == second->Ok_0.bin,
{
}

/// What the lexer gives is closed by the end-of-input token, so the parser
/// never refuses it for the want of one.
pub proof fn law_lexed_text_is_closed(source: Seq<char>)
    ensures
        lexed(source) is Ok ==> parsed(lexed(source)->Ok_0) != Err::<
            TreeView,
            ParseError,
        >(ParseError::SyntaxError),
        assembled(source) != Err::<VMWView, AssembleErrorView>(
            AssembleErrorView::Parse(ParseError::SyntaxError),
        ),
{
    if lexed(source) is Ok {
        let tokens = lexed(source)->Ok_0;
        law_tokens_end_with_end_of_input(normalized(source), 0);
        assert(tokens[tokens.len() - 1] is EOF);
        lemma_program_is_no_syntax_error(tokens, 0, Seq::empty());
    }
}

} // verus!
