//! A small bytecode interpreter with an integer stack, a float stack kept as
//! IEEE-754 bit patterns, and staged source diagnostics.
//!
//! Float arithmetic is left to the host: an instruction that needs it pops its
//! operands and hands them out as `FloatWork`; the host pushes the result back.

mod arith;
mod cursor;
mod diagnostic;
mod machine;

pub use arith::{
    int_add, int_div, int_mul, int_neg, int_rem, int_sub, lemma_trunc_div_fits, mag, trunc_div,
    trunc_rem, wrap64,
};
pub use cursor::{le_value, lemma_le_bound, pow256, read_le, signed64, to_signed};
pub use diagnostic::{
    debug_of, decimal, diagnostic_text, digit_char, push_decimal, render, render_report, repeat_char, report_text, ErrorData,
    ErrorView,
};
pub use machine::{
    decode_record, drive, float_work, int_result, is_float_zero, law_cursor_advances, law_guarded_division, law_halt_is_final,
    law_unknown_opcode_inert, lossy_of, outcome, raised, step, step_float, step_int, text_at,
    ByteCursor, Fault, FloatWork, RunState, Step, StepView, VirtualMachine, VmView, ERR_DATA,
    FLOAT_ADD, FLOAT_DIV, FLOAT_MUL, FLOAT_NEG, FLOAT_PUSH, FLOAT_SUB, FLOAT_TO_INT, INT_ADD,
    INT_DIV, INT_MOD, INT_MUL, INT_NEG, INT_PUSH, INT_SUB, INT_TO_FLOAT, NOP, SIGN_BIT,
};
