//! The shared vocabulary of the machine: opcode numbers, register roles,
//! word width, memory layout, and the constants of the SCC calling
//! convention. Every other component is written against these numbers.

use vstd::prelude::*;

verus! {

/// Number of cells in the register file.
pub const NUM_REGS: usize = 8;

/// Number of addressable memory words; addresses are 16 bits wide.
pub const MEM_SIZE: usize = 65536;

/// One more than the largest 16-bit word; register arithmetic wraps at this.
pub const WORD_MOD: u32 = 65536;

/// Register 0 receives every ALU result.
pub const REG_OUT: u16 = 0;

/// Register 1 is the program counter.
pub const REG_COUNT: u16 = 1;

/// Writing a nonzero value here signals the console device; the value 2
/// means both bytes of the data word are characters, any other nonzero
/// value means only the low byte is.
pub const OUT_FLAG_ADDR: u16 = 8080;

/// The word printed by the console device when the flag is raised.
pub const OUT_DATA_ADDR: u16 = 8081;

/// Initial value of register `e`, the data-stack pointer, in SCC code.
pub const DATA_STACK_BASE: u16 = 8000;

/// Initial value of register `f`, the call-stack pointer, in SCC code.
pub const CALL_STACK_BASE: u16 = 16000;

/// Address at which a program image is loaded and execution begins.
pub const PROGRAM_OFFSET: u16 = 0;

/// Words between a call site's current program counter and its return
/// address: the rest of the 21-word call sequence plus the 3-word
/// instruction that reads the counter.
pub const CALL_RETURN_OFFSET: u16 = 18;

/// Assembled length in words of the call sequence for one bare-name token.
pub const CALL_LENGTH: usize = 21;

/// Assembled length in words of the push sequence for one integer-literal
/// or address-of token.
pub const APPEND_INT: usize = 15;

/// Assembled length in words of the epilogue appended to every function.
pub const TAIL_LENGTH: usize = 12;

/// Words reserved before the first function for the two preamble
/// instructions that initialize the stack pointers.
pub const PREAMBLE_LENGTH: usize = 6;

/// Halt: stop the machine with status 0. No operands.
pub const OP_HLT: u16 = 0;

/// Pointer read: load the word addressed by one register into another.
pub const OP_PNT: u16 = 1;

/// Save: store one register's value at the address held by another.
pub const OP_SAV: u16 = 2;

/// Set a register to an immediate 16-bit literal.
pub const OP_SET: u16 = 3;

/// Copy one register into another.
pub const OP_CPY: u16 = 4;

/// Wrapping 16-bit addition into the `out` register.
pub const OP_ADD: u16 = 5;

/// Wrapping 16-bit subtraction into the `out` register.
pub const OP_SUB: u16 = 6;

/// Bitwise exclusive or into the `out` register.
pub const OP_XOR: u16 = 7;

/// Bitwise nor into the `out` register.
pub const OP_NOR: u16 = 8;

/// Bitwise and into the `out` register.
pub const OP_AND: u16 = 9;

/// Unsigned less-than test into the `out` register (1 or 0).
pub const OP_LST: u16 = 10;

/// Jump to the address in one register if another register is nonzero.
pub const OP_JNZ: u16 = 11;

} // verus!
