use vstd::prelude::*;

verus! {

/// Byte of the `PUSH2` instruction, which carries a two-byte jump target.
pub const PUSH2: u8 = 0x61;

/// Byte of the `JUMPDEST` instruction, which marks a valid jump target.
pub const JUMPDEST: u8 = 0x5b;

/// The byte of the opcode whose canonical mnemonic is `s`, if any.
/// Mnemonics are matched case-sensitively.
pub open spec fn opcode_of(s: Seq<char>) -> Option<u8> {
    if s == "STOP"@ {
        Some(0x00u8)
    } else if s == "ADD"@ {
        Some(0x01u8)
    } else if s == "MUL"@ {
        Some(0x02u8)
    } else if s == "SUB"@ {
        Some(0x03u8)
    } else if s == "DIV"@ {
        Some(0x04u8)
    } else if s == "SDIV"@ {
        Some(0x05u8)
    } else if s == "MOD"@ {
        Some(0x06u8)
    } else if s == "SMOD"@ {
        Some(0x07u8)
    } else if s == "ADDMOD"@ {
        Some(0x08u8)
    } else if s == "MULMOD"@ {
        Some(0x09u8)
    } else if s == "EXP"@ {
        Some(0x0au8)
    } else if s == "SIGNEXTEND"@ {
        Some(0x0bu8)
    } else if s == "LT"@ {
        Some(0x10u8)
    } else if s == "GT"@ {
        Some(0x11u8)
    } else if s == "SLT"@ {
        Some(0x12u8)
    } else if s == "SGT"@ {
        Some(0x13u8)
    } else if s == "EQ"@ {
        Some(0x14u8)
    } else if s == "ISZERO"@ {
        Some(0x15u8)
    } else if s == "AND"@ {
        Some(0x16u8)
    } else if s == "OR"@ {
        Some(0x17u8)
    } else if s == "XOR"@ {
        Some(0x18u8)
    } else if s == "NOT"@ {
        Some(0x19u8)
    } else if s == "BYTE"@ {
        Some(0x1au8)
    } else if s == "SHL"@ {
        Some(0x1bu8)
    } else if s == "SHR"@ {
        Some(0x1cu8)
    } else if s == "SAR"@ {
        Some(0x1du8)
    } else if s == "SHA3"@ {
        Some(0x20u8)
    } else if s == "ADDRESS"@ {
        Some(0x30u8)
    } else if s == "BALANCE"@ {
        Some(0x31u8)
    } else if s == "ORIGIN"@ {
        Some(0x32u8)
    } else if s == "CALLER"@ {
        Some(0x33u8)
    } else if s == "CALLVALUE"@ {
        Some(0x34u8)
    } else if s == "CALLDATALOAD"@ {
        Some(0x35u8)
    } else if s == "CALLDATASIZE"@ {
        Some(0x36u8)
    } else if s == "CALLDATACOPY"@ {
        Some(0x37u8)
    } else if s == "CODESIZE"@ {
        Some(0x38u8)
    } else if s == "CODECOPY"@ {
        Some(0x39u8)
    } else if s == "GASPRICE"@ {
        Some(0x3au8)
    } else if s == "EXTCODESIZE"@ {
        Some(0x3bu8)
    } else if s == "EXTCODECOPY"@ {
        Some(0x3cu8)
    } else if s == "RETURNDATASIZE"@ {
        Some(0x3du8)
    } else if s == "RETURNDATACOPY"@ {
        Some(0x3eu8)
    } else if s == "EXTCODEHASH"@ {
        Some(0x3fu8)
    } else if s == "BLOCKHASH"@ {
        Some(0x40u8)
    } else if s == "COINBASE"@ {
        Some(0x41u8)
    } else if s == "TIMESTAMP"@ {
        Some(0x42u8)
    } else if s == "NUMBER"@ {
        Some(0x43u8)
    } else if s == "PREVRANDAO"@ {
        Some(0x44u8)
    } else if s == "GASLIMIT"@ {
        Some(0x45u8)
    } else if s == "CHAINID"@ {
        Some(0x46u8)
    } else if s == "SELFBALANCE"@ {
        Some(0x47u8)
    } else if s == "BASEFEE"@ {
        Some(0x48u8)
    } else if s == "BLOBHASH"@ {
        Some(0x49u8)
    } else if s == "BLOBBASEFEE"@ {
        Some(0x4au8)
    } else if s == "POP"@ {
        Some(0x50u8)
    } else if s == "MLOAD"@ {
        Some(0x51u8)
    } else if s == "MSTORE"@ {
        Some(0x52u8)
    } else if s == "MSTORE8"@ {
        Some(0x53u8)
    } else if s == "SLOAD"@ {
        Some(0x54u8)
    } else if s == "SSTORE"@ {
        Some(0x55u8)
    } else if s == "JUMP"@ {
        Some(0x56u8)
    } else if s == "JUMPI"@ {
        Some(0x57u8)
    } else if s == "PC"@ {
        Some(0x58u8)
    } else if s == "MSIZE"@ {
        Some(0x59u8)
    } else if s == "GAS"@ {
        Some(0x5au8)
    } else if s == "JUMPDEST"@ {
        Some(0x5bu8)
    } else if s == "TLOAD"@ {
        Some(0x5cu8)
    } else if s == "TSTORE"@ {
        Some(0x5du8)
    } else if s == "MCOPY"@ {
        Some(0x5eu8)
    } else if s == "PUSH0"@ {
        Some(0x5fu8)
    } else if s == "PUSH1"@ {
        Some(0x60u8)
    } else if s == "PUSH2"@ {
        Some(0x61u8)
    } else if s == "PUSH3"@ {
        Some(0x62u8)
    } else if s == "PUSH4"@ {
        Some(0x63u8)
    } else if s == "PUSH5"@ {
        Some(0x64u8)
    } else if s == "PUSH6"@ {
        Some(0x65u8)
    } else if s == "PUSH7"@ {
        Some(0x66u8)
    } else if s == "PUSH8"@ {
        Some(0x67u8)
    } else if s == "PUSH9"@ {
        Some(0x68u8)
    } else if s == "PUSH10"@ {
        Some(0x69u8)
    } else if s == "PUSH11"@ {
        Some(0x6au8)
    } else if s == "PUSH12"@ {
        Some(0x6bu8)
    } else if s == "PUSH13"@ {
        Some(0x6cu8)
    } else if s == "PUSH14"@ {
        Some(0x6du8)
    } else if s == "PUSH15"@ {
        Some(0x6eu8)
    } else if s == "PUSH16"@ {
        Some(0x6fu8)
    } else if s == "PUSH17"@ {
        Some(0x70u8)
    } else if s == "PUSH18"@ {
        Some(0x71u8)
    } else if s == "PUSH19"@ {
        Some(0x72u8)
    } else if s == "PUSH20"@ {
        Some(0x73u8)
    } else if s == "PUSH21"@ {
        Some(0x74u8)
    } else if s == "PUSH22"@ {
        Some(0x75u8)
    } else if s == "PUSH23"@ {
        Some(0x76u8)
    } else if s == "PUSH24"@ {
        Some(0x77u8)
    } else if s == "PUSH25"@ {
        Some(0x78u8)
    } else if s == "PUSH26"@ {
        Some(0x79u8)
    } else if s == "PUSH27"@ {
        Some(0x7au8)
    } else if s == "PUSH28"@ {
        Some(0x7bu8)
    } else if s == "PUSH29"@ {
        Some(0x7cu8)
    } else if s == "PUSH30"@ {
        Some(0x7du8)
    } else if s == "PUSH31"@ {
        Some(0x7eu8)
    } else if s == "PUSH32"@ {
        Some(0x7fu8)
    } else if s == "DUP1"@ {
        Some(0x80u8)
    } else if s == "DUP2"@ {
        Some(0x81u8)
    } else if s == "DUP3"@ {
        Some(0x82u8)
    } else if s == "DUP4"@ {
        Some(0x83u8)
    } else if s == "DUP5"@ {
        Some(0x84u8)
    } else if s == "DUP6"@ {
        Some(0x85u8)
    } else if s == "DUP7"@ {
        Some(0x86u8)
    } else if s == "DUP8"@ {
        Some(0x87u8)
    } else if s == "DUP9"@ {
        Some(0x88u8)
    } else if s == "DUP10"@ {
        Some(0x89u8)
    } else if s == "DUP11"@ {
        Some(0x8au8)
    } else if s == "DUP12"@ {
        Some(0x8bu8)
    } else if s == "DUP13"@ {
        Some(0x8cu8)
    } else if s == "DUP14"@ {
        Some(0x8du8)
    } else if s == "DUP15"@ {
        Some(0x8eu8)
    } else if s == "DUP16"@ {
        Some(0x8fu8)
    } else if s == "SWAP1"@ {
        Some(0x90u8)
    } else if s == "SWAP2"@ {
        Some(0x91u8)
    } else if s == "SWAP3"@ {
        Some(0x92u8)
    } else if s == "SWAP4"@ {
        Some(0x93u8)
    } else if s == "SWAP5"@ {
        Some(0x94u8)
    } else if s == "SWAP6"@ {
        Some(0x95u8)
    } else if s == "SWAP7"@ {
        Some(0x96u8)
    } else if s == "SWAP8"@ {
        Some(0x97u8)
    } else if s == "SWAP9"@ {
        Some(0x98u8)
    } else if s == "SWAP10"@ {
        Some(0x99u8)
    } else if s == "SWAP11"@ {
        Some(0x9au8)
    } else if s == "SWAP12"@ {
        Some(0x9bu8)
    } else if s == "SWAP13"@ {
        Some(0x9cu8)
    } else if s == "SWAP14"@ {
        Some(0x9du8)
    } else if s == "SWAP15"@ {
        Some(0x9eu8)
    } else if s == "SWAP16"@ {
        Some(0x9fu8)
    } else if s == "LOG0"@ {
        Some(0xa0u8)
    } else if s == "LOG1"@ {
        Some(0xa1u8)
    } else if s == "LOG2"@ {
        Some(0xa2u8)
    } else if s == "LOG3"@ {
        Some(0xa3u8)
    } else if s == "LOG4"@ {
        Some(0xa4u8)
    } else if s == "CREATE"@ {
        Some(0xf0u8)
    } else if s == "CALL"@ {
        Some(0xf1u8)
    } else if s == "CALLCODE"@ {
        Some(0xf2u8)
    } else if s == "RETURN"@ {
        Some(0xf3u8)
    } else if s == "DELEGATECALL"@ {
        Some(0xf4u8)
    } else if s == "CREATE2"@ {
        Some(0xf5u8)
    } else if s == "STATICCALL"@ {
        Some(0xfau8)
    } else if s == "REVERT"@ {
        Some(0xfdu8)
    } else if s == "INVALID"@ {
        Some(0xfeu8)
    } else if s == "SELFDESTRUCT"@ {
        Some(0xffu8)
    } else {
        None
    }
}

/// Looks a mnemonic up in the opcode table.
pub fn resolve_opcode(name: &str) -> (r: Option<u8>)
    ensures
        r == opcode_of(name@),
{
    let n = name.to_owned();
    if n == "STOP".to_owned() {
        Some(0x00u8)
    } else if n == "ADD".to_owned() {
        Some(0x01u8)
    } else if n == "MUL".to_owned() {
        Some(0x02u8)
    } else if n == "SUB".to_owned() {
        Some(0x03u8)
    } else if n == "DIV".to_owned() {
        Some(0x04u8)
    } else if n == "SDIV".to_owned() {
        Some(0x05u8)
    } else if n == "MOD".to_owned() {
        Some(0x06u8)
    } else if n == "SMOD".to_owned() {
        Some(0x07u8)
    } else if n == "ADDMOD".to_owned() {
        Some(0x08u8)
    } else if n == "MULMOD".to_owned() {
        Some(0x09u8)
    } else if n == "EXP".to_owned() {
        Some(0x0au8)
    } else if n == "SIGNEXTEND".to_owned() {
        Some(0x0bu8)
    } else if n == "LT".to_owned() {
        Some(0x10u8)
    } else if n == "GT".to_owned() {
        Some(0x11u8)
    } else if n == "SLT".to_owned() {
        Some(0x12u8)
    } else if n == "SGT".to_owned() {
        Some(0x13u8)
    } else if n == "EQ".to_owned() {
        Some(0x14u8)
    } else if n == "ISZERO".to_owned() {
        Some(0x15u8)
    } else if n == "AND".to_owned() {
        Some(0x16u8)
    } else if n == "OR".to_owned() {
        Some(0x17u8)
    } else if n == "XOR".to_owned() {
        Some(0x18u8)
    } else if n == "NOT".to_owned() {
        Some(0x19u8)
    } else if n == "BYTE".to_owned() {
        Some(0x1au8)
    } else if n == "SHL".to_owned() {
        Some(0x1bu8)
    } else if n == "SHR".to_owned() {
        Some(0x1cu8)
    } else if n == "SAR".to_owned() {
        Some(0x1du8)
    } else if n == "SHA3".to_owned() {
        Some(0x20u8)
    } else if n == "ADDRESS".to_owned() {
        Some(0x30u8)
    } else if n == "BALANCE".to_owned() {
        Some(0x31u8)
    } else if n == "ORIGIN".to_owned() {
        Some(0x32u8)
    } else if n == "CALLER".to_owned() {
        Some(0x33u8)
    } else if n == "CALLVALUE".to_owned() {
        Some(0x34u8)
    } else if n == "CALLDATALOAD".to_owned() {
        Some(0x35u8)
    } else if n == "CALLDATASIZE".to_owned() {
        Some(0x36u8)
    } else if n == "CALLDATACOPY".to_owned() {
        Some(0x37u8)
    } else if n == "CODESIZE".to_owned() {
        Some(0x38u8)
    } else if n == "CODECOPY".to_owned() {
        Some(0x39u8)
    } else if n == "GASPRICE".to_owned() {
        Some(0x3au8)
    } else if n == "EXTCODESIZE".to_owned() {
        Some(0x3bu8)
    } else if n == "EXTCODECOPY".to_owned() {
        Some(0x3cu8)
    } else if n == "RETURNDATASIZE".to_owned() {
        Some(0x3du8)
    } else if n == "RETURNDATACOPY".to_owned() {
        Some(0x3eu8)
    } else if n == "EXTCODEHASH".to_owned() {
        Some(0x3fu8)
    } else if n == "BLOCKHASH".to_owned() {
        Some(0x40u8)
    } else if n == "COINBASE".to_owned() {
        Some(0x41u8)
    } else if n == "TIMESTAMP".to_owned() {
        Some(0x42u8)
    } else if n == "NUMBER".to_owned() {
        Some(0x43u8)
    } else if n == "PREVRANDAO".to_owned() {
        Some(0x44u8)
    } else if n == "GASLIMIT".to_owned() {
        Some(0x45u8)
    } else if n == "CHAINID".to_owned() {
        Some(0x46u8)
    } else if n == "SELFBALANCE".to_owned() {
        Some(0x47u8)
    } else if n == "BASEFEE".to_owned() {
        Some(0x48u8)
    } else if n == "BLOBHASH".to_owned() {
        Some(0x49u8)
    } else if n == "BLOBBASEFEE".to_owned() {
        Some(0x4au8)
    } else if n == "POP".to_owned() {
        Some(0x50u8)
    } else if n == "MLOAD".to_owned() {
        Some(0x51u8)
    } else if n == "MSTORE".to_owned() {
        Some(0x52u8)
    } else if n == "MSTORE8".to_owned() {
        Some(0x53u8)
    } else if n == "SLOAD".to_owned() {
        Some(0x54u8)
    } else if n == "SSTORE".to_owned() {
        Some(0x55u8)
    } else if n == "JUMP".to_owned() {
        Some(0x56u8)
    } else if n == "JUMPI".to_owned() {
        Some(0x57u8)
    } else if n == "PC".to_owned() {
        Some(0x58u8)
    } else if n == "MSIZE".to_owned() {
        Some(0x59u8)
    } else if n == "GAS".to_owned() {
        Some(0x5au8)
    } else if n == "JUMPDEST".to_owned() {
        Some(0x5bu8)
    } else if n == "TLOAD".to_owned() {
        Some(0x5cu8)
    } else if n == "TSTORE".to_owned() {
        Some(0x5du8)
    } else if n == "MCOPY".to_owned() {
        Some(0x5eu8)
    } else if n == "PUSH0".to_owned() {
        Some(0x5fu8)
    } else if n == "PUSH1".to_owned() {
        Some(0x60u8)
    } else if n == "PUSH2".to_owned() {
        Some(0x61u8)
    } else if n == "PUSH3".to_owned() {
        Some(0x62u8)
    } else if n == "PUSH4".to_owned() {
        Some(0x63u8)
    } else if n == "PUSH5".to_owned() {
        Some(0x64u8)
    } else if n == "PUSH6".to_owned() {
        Some(0x65u8)
    } else if n == "PUSH7".to_owned() {
        Some(0x66u8)
    } else if n == "PUSH8".to_owned() {
        Some(0x67u8)
    } else if n == "PUSH9".to_owned() {
        Some(0x68u8)
    } else if n == "PUSH10".to_owned() {
        Some(0x69u8)
    } else if n == "PUSH11".to_owned() {
        Some(0x6au8)
    } else if n == "PUSH12".to_owned() {
        Some(0x6bu8)
    } else if n == "PUSH13".to_owned() {
        Some(0x6cu8)
    } else if n == "PUSH14".to_owned() {
        Some(0x6du8)
    } else if n == "PUSH15".to_owned() {
        Some(0x6eu8)
    } else if n == "PUSH16".to_owned() {
        Some(0x6fu8)
    } else if n == "PUSH17".to_owned() {
        Some(0x70u8)
    } else if n == "PUSH18".to_owned() {
        Some(0x71u8)
    } else if n == "PUSH19".to_owned() {
        Some(0x72u8)
    } else if n == "PUSH20".to_owned() {
        Some(0x73u8)
    } else if n == "PUSH21".to_owned() {
        Some(0x74u8)
    } else if n == "PUSH22".to_owned() {
        Some(0x75u8)
    } else if n == "PUSH23".to_owned() {
        Some(0x76u8)
    } else if n == "PUSH24".to_owned() {
        Some(0x77u8)
    } else if n == "PUSH25".to_owned() {
        Some(0x78u8)
    } else if n == "PUSH26".to_owned() {
        Some(0x79u8)
    } else if n == "PUSH27".to_owned() {
        Some(0x7au8)
    } else if n == "PUSH28".to_owned() {
        Some(0x7bu8)
    } else if n == "PUSH29".to_owned() {
        Some(0x7cu8)
    } else if n == "PUSH30".to_owned() {
        Some(0x7du8)
    } else if n == "PUSH31".to_owned() {
        Some(0x7eu8)
    } else if n == "PUSH32".to_owned() {
        Some(0x7fu8)
    } else if n == "DUP1".to_owned() {
        Some(0x80u8)
    } else if n == "DUP2".to_owned() {
        Some(0x81u8)
    } else if n == "DUP3".to_owned() {
        Some(0x82u8)
    } else if n == "DUP4".to_owned() {
        Some(0x83u8)
    } else if n == "DUP5".to_owned() {
        Some(0x84u8)
    } else if n == "DUP6".to_owned() {
        Some(0x85u8)
    } else if n == "DUP7".to_owned() {
        Some(0x86u8)
    } else if n == "DUP8".to_owned() {
        Some(0x87u8)
    } else if n == "DUP9".to_owned() {
        Some(0x88u8)
    } else if n == "DUP10".to_owned() {
        Some(0x89u8)
    } else if n == "DUP11".to_owned() {
        Some(0x8au8)
    } else if n == "DUP12".to_owned() {
        Some(0x8bu8)
    } else if n == "DUP13".to_owned() {
        Some(0x8cu8)
    } else if n == "DUP14".to_owned() {
        Some(0x8du8)
    } else if n == "DUP15".to_owned() {
        Some(0x8eu8)
    } else if n == "DUP16".to_owned() {
        Some(0x8fu8)
    } else if n == "SWAP1".to_owned() {
        Some(0x90u8)
    } else if n == "SWAP2".to_owned() {
        Some(0x91u8)
    } else if n == "SWAP3".to_owned() {
        Some(0x92u8)
    } else if n == "SWAP4".to_owned() {
        Some(0x93u8)
    } else if n == "SWAP5".to_owned() {
        Some(0x94u8)
    } else if n == "SWAP6".to_owned() {
        Some(0x95u8)
    } else if n == "SWAP7".to_owned() {
        Some(0x96u8)
    } else if n == "SWAP8".to_owned() {
        Some(0x97u8)
    } else if n == "SWAP9".to_owned() {
        Some(0x98u8)
    } else if n == "SWAP10".to_owned() {
        Some(0x99u8)
    } else if n == "SWAP11".to_owned() {
        Some(0x9au8)
    } else if n == "SWAP12".to_owned() {
        Some(0x9bu8)
    } else if n == "SWAP13".to_owned() {
        Some(0x9cu8)
    } else if n == "SWAP14".to_owned() {
        Some(0x9du8)
    } else if n == "SWAP15".to_owned() {
        Some(0x9eu8)
    } else if n == "SWAP16".to_owned() {
        Some(0x9fu8)
    } else if n == "LOG0".to_owned() {
        Some(0xa0u8)
    } else if n == "LOG1".to_owned() {
        Some(0xa1u8)
    } else if n == "LOG2".to_owned() {
        Some(0xa2u8)
    } else if n == "LOG3".to_owned() {
        Some(0xa3u8)
    } else if n == "LOG4".to_owned() {
        Some(0xa4u8)
    } else if n == "CREATE".to_owned() {
        Some(0xf0u8)
    } else if n == "CALL".to_owned() {
        Some(0xf1u8)
    } else if n == "CALLCODE".to_owned() {
        Some(0xf2u8)
    } else if n == "RETURN".to_owned() {
        Some(0xf3u8)
    } else if n == "DELEGATECALL".to_owned() {
        Some(0xf4u8)
    } else if n == "CREATE2".to_owned() {
        Some(0xf5u8)
    } else if n == "STATICCALL".to_owned() {
        Some(0xfau8)
    } else if n == "REVERT".to_owned() {
        Some(0xfdu8)
    } else if n == "INVALID".to_owned() {
        Some(0xfeu8)
    } else if n == "SELFDESTRUCT".to_owned() {
        Some(0xffu8)
    } else {
        None
    }
}

/// Number of zero bytes in front of the first non-zero byte of `s`.
pub open spec fn leading_zeros(s: Seq<u8>) -> nat
    decreases s.len(),
{
    if s.len() == 0 || s[0] != 0 {
        0
    } else {
        1 + leading_zeros(s.drop_first())
    }
}

/// Number of payload bytes a push of the 32-byte literal `lit` carries:
/// its significant bytes, and at least one.
pub open spec fn push_width(lit: Seq<u8>) -> nat {
    if leading_zeros(lit) >= 32 {
        1
    } else {
        (32 - leading_zeros(lit)) as nat
    }
}

/// The shortest push of the 32-byte literal `lit`: opcode `0x5F + n`
/// followed by the last `n` bytes of the literal.
pub open spec fn push_encoding(lit: Seq<u8>) -> Seq<u8> {
    seq![(0x5f + push_width(lit)) as u8] + lit.subrange(32 - push_width(lit), 32)
}

/// The three bytes of a `PUSH2` whose payload is still to be patched.
pub open spec fn placeholder_encoding() -> Seq<u8> {
    seq![PUSH2, 0u8, 0u8]
}

proof fn lemma_leading_zeros_bound(s: Seq<u8>)
    ensures
        leading_zeros(s) <= s.len(),
        forall|i: int| 0 <= i < leading_zeros(s) ==> s[i] == 0,
        leading_zeros(s) < s.len() ==> s[leading_zeros(s) as int] != 0,
    decreases s.len(),
{
    if s.len() > 0 && s[0] == 0 {
        lemma_leading_zeros_bound(s.drop_first());
        assert forall|i: int| 0 <= i < leading_zeros(s) implies s[i] == 0 by {
            if i > 0 {
                assert(s[i] == s.drop_first()[i - 1]);
            }
        }
    }
}

proof fn lemma_leading_zeros_exact(s: Seq<u8>, k: int)
    requires
        0 <= k <= s.len(),
        forall|i: int| 0 <= i < k ==> s[i] == 0,
        k < s.len() ==> s[k] != 0,
    ensures
        leading_zeros(s) == k,
    decreases s.len(),
{
    if k > 0 {
        lemma_leading_zeros_exact(s.drop_first(), k - 1);
    }
}

/// `256` to the power `n`.
pub open spec fn pow256(n: nat) -> nat
    decreases n,
{
    if n == 0 {
        1
    } else {
        256 * pow256((n - 1) as nat)
    }
}

/// The number `s` denotes, read big-endian.
pub open spec fn be_value(s: Seq<u8>) -> nat
    decreases s.len(),
{
    if s.len() == 0 {
        0
    } else {
        s[0] as nat * pow256((s.len() - 1) as nat) + be_value(s.drop_first())
    }
}

proof fn lemma_be_value_bound(s: Seq<u8>)
    ensures
        be_value(s) < pow256(s.len()),
        s.len() > 0 && s[0] != 0 ==> be_value(s) >= pow256((s.len() - 1) as nat),
    decreases s.len(),
{
    if s.len() > 0 {
        let n = (s.len() - 1) as nat;
        lemma_be_value_bound(s.drop_first());
        let p = pow256(n);
        let r = be_value(s.drop_first());
        let h = s[0] as nat;
        assert(h * p + r < 256 * p) by (nonlinear_arith)
            requires
                h <= 255,
                r < p,
        ;
        if h != 0 {
            assert(h * p >= p) by (nonlinear_arith)
                requires
                    h >= 1,
            ;
        }
    }
}

proof fn lemma_be_value_skip_zeros(s: Seq<u8>, k: int)
    requires
        0 <= k <= s.len(),
        forall|i: int| 0 <= i < k ==> s[i] == 0,
    ensures
        be_value(s) == be_value(s.subrange(k, s.len() as int)),
    decreases k,
{
    if k > 0 {
        let t = s.drop_first();
        assert forall|i: int| 0 <= i < k - 1 implies t[i] == 0 by {
            assert(t[i] == s[i + 1]);
        }
        lemma_be_value_skip_zeros(t, k - 1);
        assert(t.subrange(k - 1, t.len() as int) =~= s.subrange(k, s.len() as int));
    } else {
        assert(s.subrange(0, s.len() as int) =~= s);
    }
}

/// The push of a 32-byte literal of value `x` carries `w` bytes, where `w`
/// is the fewest, and at least one, that can hold `x`: `x < 256^w`, and
/// `x >= 256^(w - 1)` when `w > 1`. So the encoding is `1 + w` bytes long,
/// `w` being `max(1, ceil(log256(x + 1)))`, and begins with `0x5F + w`.
pub proof fn lemma_push_width_is_minimal(lit: Seq<u8>)
    requires
        lit.len() == 32,
    ensures
        be_value(lit) < pow256(push_width(lit)),
        push_width(lit) > 1 ==> be_value(lit) >= pow256((push_width(lit) - 1) as nat),
        push_encoding(lit).len() == 1 + push_width(lit),
        push_encoding(lit)[0] == 0x5f + push_width(lit),
{
    lemma_leading_zeros_bound(lit);
    let z = leading_zeros(lit);
    let w = push_width(lit);
    let k = 32 - w;
    assert forall|i: int| 0 <= i < k implies lit[i] == 0 by {}
    lemma_be_value_skip_zeros(lit, k);
    let tail = lit.subrange(k, 32);
    lemma_be_value_bound(tail);
    if w > 1 {
        assert(tail[0] == lit[z as int]);
    }
}

/// A push of a 32-byte literal is two to 33 bytes long.
pub proof fn lemma_push_encoding_len(lit: Seq<u8>)
    requires
        lit.len() == 32,
    ensures
        push_encoding(lit).len() == 1 + push_width(lit),
        1 <= push_width(lit) <= 32,
        2 <= push_encoding(lit).len() <= 33,
{
    lemma_leading_zeros_bound(lit);
}

/// Encodes the shortest push of a 32-byte big-endian literal.
pub fn encode_push(lit: &[u8; 32]) -> (r: Vec<u8>)
    ensures
        r@ == push_encoding(lit@),
        2 <= r@.len() <= 33,
        r@[0] == 0x5f + (r@.len() - 1),
{
    let mut k: usize = 0;
    while k < 31 && lit[k] == 0
        invariant
            k <= 31,
            forall|i: int| 0 <= i < k ==> lit@[i] == 0,
        decreases 31 - k,
    {
        k = k + 1;
    }
    proof {
        lemma_leading_zeros_bound(lit@);
        if lit@[k as int] != 0 {
            lemma_leading_zeros_exact(lit@, k as int);
        } else {
            assert(k == 31);
            assert(leading_zeros(lit@) >= 31);
        }
    }
    let width: usize = 32 - k;
    let mut r: Vec<u8> = Vec::new();
    r.push((0x5f + width) as u8);
    let mut i: usize = k;
    while i < 32
        invariant
            k <= i <= 32,
            r@.len() == 1 + (i - k),
            r@[0] == (0x5f + width) as u8,
            forall|j: int| 1 <= j < r@.len() ==> r@[j] == lit@[k + j - 1],
        decreases 32 - i,
    {
        r.push(lit[i]);
        i = i + 1;
    }
    assert(r@ =~= push_encoding(lit@));
    r
}

/// Emits a `PUSH2` with a zero payload, to be overwritten once its jump
/// target is known.
pub fn push2_placeholder() -> (r: Vec<u8>)
    ensures
        r@ == placeholder_encoding(),
{
    let r: Vec<u8> = vec![PUSH2, 0u8, 0u8];
    assert(r@ =~= placeholder_encoding());
    r
}

} // verus!
