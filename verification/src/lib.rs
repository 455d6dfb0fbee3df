//! A small Lua-like interpreter front-end and execution engine:
//! a lexer that turns source text into tokens, a recursive-descent
//! parser that turns tokens into an abstract syntax tree, and a
//! tree-walking evaluator that runs the tree against a register-style
//! runtime state.
//!
//! The central guarantees, each verified where it is stated:
//!
//! - `scanner::Scanner::scan` produces exactly the tokens and
//!   comments of the functional model `scanner::spec_scan`, and fails
//!   exactly where the model does. Every token it emits carries a
//!   well-formed lexeme (`scanner::lemma_scan_tokens_wf`), a
//!   well-formed lexeme re-lexes to a single token of its own kind
//!   (`scanner::lemma_lexer_round_trip`), and whitespace or comments
//!   inserted between tokens change line numbers only
//!   (`scanner::lemma_ws_prepend`, `scanner::lemma_blank_line_prepend`,
//!   `scanner::lemma_comment_prepend`,
//!   `scanner::lemma_scan_line_independent`).
//! - `parser::parser::parse` consumes exactly the tokens whose kinds
//!   are the frontier of the tree it returns, followed by the
//!   end-of-input token: no node is dropped, duplicated or reordered.
//! - The calling convention balances the value stack: a call that
//!   returns `Ok` leaves the registry top higher by exactly the
//!   declared return count (`function::LuaFunction::do_call`), and the
//!   call wrappers restore it entirely (`state::LuaState::funcall`,
//!   `state::LuaState::global_funcall1`).
//! - Every evaluation step keeps the runtime state well formed, keeps
//!   call frames balanced, never touches the registry below the
//!   current frame's base, and always terminates (`eval::evolves`).

pub mod errors;
pub mod token_type;
pub mod scanner;
pub mod parser;
pub mod value;
pub mod table;
pub mod function;
pub mod state;
pub mod eval;
pub mod prelude;
