//! A small expression-oriented scripting language: a scanner turns text
//! into tokens, a recursive-descent parser turns tokens into expressions,
//! and a tree-walking evaluator runs expressions against a scope chain.
//!
//! Each stage is specified by spec functions over plain mathematical
//! values — `spec_scan` for tokens, `sp_next` for the grammar, `sev` for
//! evaluation — and the executable scanner, parser and evaluator are
//! verified against them.

mod binary_op;
mod data;
mod error;
mod expr;
mod number;
mod parser;
mod program;
mod scope;
mod scanner;

pub use binary_op::{op_result_view, spec_op_eval, spec_op_text, spec_precedence, BinaryOp};
pub use data::{
    datas_view, spec_data_eq, spec_display, spec_to_bool, spec_type_text, Data, DataV,
};
pub use error::{
    spec_message, ExecuteError, ExecuteErrorV, ParseError, ParseErrorV, TokenError,
};
pub use expr::{
    eval_res_view, expr_view, exprs_view, lemma_eval_preserves_frames, preserves_frames,
    println_line, sev, sev_args, sev_block_items, sev_while, ExprV, Expression,
};
pub use number::{
    add_bits, div_bits, eq_bits, ge_bits, gt_bits, le_bits, lt_bits, mul_bits, number_bits,
    number_text, rem_bits, sub_bits,
};
pub use parser::{
    parse_item_view, sp_block, sp_ident, sp_if, sp_list, sp_next, sp_paren, sp_while,
    spec_apply_precedence, Parser,
};
pub use program::Program;
pub use scanner::{
    lemma_scan_bounds, lemma_two_char_operator, scan_item_view, scan_string, spec_scan,
    spec_word_token, Scanner, Token, TokenV,
};
pub use scope::{spec_assign, spec_lookup, Scope, ScopeTree};
