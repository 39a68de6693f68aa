//! The static instruction registry: mnemonics, opcodes and typed argument
//! signatures, together with the table of condition-code names.

use vstd::prelude::*;
use crate::text::eq_str;

verus! {

/// Condition-code names and their one-byte codes.
///
/// The positive arithmetic flags take codes 0 to 3, their inversions sit 32
/// above, the status-register flags take 64 to 66, and their inversions
/// again sit 32 above.
pub struct Conditions {}

/// The code a condition name stands for, if the name is known.
pub open spec fn spec_condition(name: Seq<char>) -> Option<u8> {
    if name == "OV"@ { Some(0u8) }
    else if name == "CR"@ { Some(1u8) }
    else if name == "NG"@ { Some(2u8) }
    else if name == "ZR"@ { Some(3u8) }
    else if name == "NV"@ { Some(32u8) }
    else if name == "NC"@ { Some(33u8) }
    else if name == "NN"@ { Some(34u8) }
    else if name == "NZ"@ { Some(35u8) }
    else if name == "ILF"@ { Some(64u8) }
    else if name == "HLF"@ { Some(65u8) }
    else if name == "IDF"@ { Some(66u8) }
    else if name == "NILF"@ { Some(96u8) }
    else if name == "NHLF"@ { Some(97u8) }
    else if name == "NIDF"@ { Some(98u8) }
    else { None }
}

impl Conditions {
    pub fn new() -> (r: Self) {
        Conditions {}
    }

    /// Looks a condition name up in the table.
    pub fn get_condition(&self, name: &[char]) -> (r: Option<u8>)
        ensures
            r == spec_condition(name@),
    {
        if eq_str(name, "OV") { Some(0) }
        else if eq_str(name, "CR") { Some(1) }
        else if eq_str(name, "NG") { Some(2) }
        else if eq_str(name, "ZR") { Some(3) }
        else if eq_str(name, "NV") { Some(32) }
        else if eq_str(name, "NC") { Some(33) }
        else if eq_str(name, "NN") { Some(34) }
        else if eq_str(name, "NZ") { Some(35) }
        else if eq_str(name, "ILF") { Some(64) }
        else if eq_str(name, "HLF") { Some(65) }
        else if eq_str(name, "IDF") { Some(66) }
        else if eq_str(name, "NILF") { Some(96) }
        else if eq_str(name, "NHLF") { Some(97) }
        else if eq_str(name, "NIDF") { Some(98) }
        else { None }
    }
}

/// The type of a single instruction argument, which fixes how the argument
/// is encoded and how wide the encoding is.
#[derive(Clone, Copy, Debug, PartialEq, Eq, Structural)]
pub enum ArgumentTypes {
    AbsPointer,
    RelPointer,
    Register32,
    Register16,
    Register8,
    Immediate32,
    Immediate16,
    Immediate8,
    FloatingPoint,
    Condition,
}

impl ArgumentTypes {
    /// Encoded width of an argument of this type, in bytes.
    pub open spec fn spec_size(self) -> nat {
        match self {
            ArgumentTypes::AbsPointer => 4,
            ArgumentTypes::RelPointer => 4,
            ArgumentTypes::FloatingPoint => 4,
            ArgumentTypes::Immediate32 => 4,
            ArgumentTypes::Immediate16 => 2,
            ArgumentTypes::Register32 => 1,
            ArgumentTypes::Register16 => 1,
            ArgumentTypes::Register8 => 1,
            ArgumentTypes::Immediate8 => 1,
            ArgumentTypes::Condition => 1,
        }
    }

    pub fn get_size(&self) -> (s: usize)
        ensures
            s == self.spec_size(),
    {
        match self {
            ArgumentTypes::AbsPointer => 4,
            ArgumentTypes::RelPointer => 4,
            ArgumentTypes::FloatingPoint => 4,
            ArgumentTypes::Immediate32 => 4,
            ArgumentTypes::Immediate16 => 2,
            ArgumentTypes::Register32 => 1,
            ArgumentTypes::Register16 => 1,
            ArgumentTypes::Register8 => 1,
            ArgumentTypes::Immediate8 => 1,
            ArgumentTypes::Condition => 1,
        }
    }
}

/// One entry of the instruction registry: a display name, the opcode, and
/// the ordered argument signature.
#[derive(Clone, Debug)]
pub struct Instruction {
    pub name: Vec<char>,
    pub opcode: u16,
    pub args: Vec<ArgumentTypes>,
}

/// Whether an opcode needs two bytes on the wire: bit 7 of its low byte.
pub open spec fn spec_extended_opcode(opcode: u16) -> bool {
    opcode & 0x80 != 0
}

/// Summed encoded width of an argument signature, in bytes.
pub open spec fn spec_args_size(args: Seq<ArgumentTypes>) -> nat
    decreases args.len(),
{
    if args.len() == 0 {
        0
    } else {
        spec_args_size(args.drop_last()) + args.last().spec_size()
    }
}

/// Encoded width of a whole instruction: opcode bytes plus argument bytes.
pub open spec fn spec_instruction_size(opcode: u16, args: Seq<ArgumentTypes>) -> nat {
    (if spec_extended_opcode(opcode) { 2nat } else { 1nat }) + spec_args_size(args)
}

proof fn lemma_args_size_bound(args: Seq<ArgumentTypes>)
    ensures
        spec_args_size(args) <= 4 * args.len(),
    decreases args.len(),
{
    if args.len() > 0 {
        lemma_args_size_bound(args.drop_last());
    }
}

impl Instruction {
    pub fn extended_opcode(&self) -> (r: bool)
        ensures
            r == spec_extended_opcode(self.opcode),
    {
        self.opcode & 0x80 != 0
    }

    /// Encoded size of this instruction in bytes.
    pub fn get_size(&self) -> (s: usize)
        requires
            4 * self.args@.len() + 2 <= usize::MAX,
        ensures
            s == spec_instruction_size(self.opcode, self.args@),
    {
        let mut size: usize = if self.extended_opcode() { 2 } else { 1 };
        let mut i: usize = 0;
        proof {
            lemma_args_size_bound(self.args@);
        }
        while i < self.args.len()
            invariant
                i <= self.args@.len(),
                4 * self.args@.len() + 2 <= usize::MAX,
                size == (if spec_extended_opcode(self.opcode) { 2nat } else { 1nat })
                    + spec_args_size(self.args@.subrange(0, i as int)),
            decreases self.args@.len() - i,
        {
            proof {
                lemma_args_size_bound(self.args@.subrange(0, i as int));
                assert(self.args@.subrange(0, i + 1 as int).drop_last()
                    =~= self.args@.subrange(0, i as int));
            }
            size = size + self.args[i].get_size();
            i = i + 1;
        }
        proof {
            assert(self.args@.subrange(0, self.args@.len() as int) =~= self.args@);
        }
        size
    }
}

/// The registry's row for an opcode: display name and argument signature.
pub open spec fn spec_instruction(opcode: u16) -> Option<(Seq<char>, Seq<ArgumentTypes>)> {
    if opcode == 0 { Some(("nop"@, Seq::<ArgumentTypes>::empty())) }
    else if opcode == 1 { Some(("halt"@, Seq::<ArgumentTypes>::empty())) }
    else if opcode == 2 { Some(("add"@, seq![ArgumentTypes::Register32, ArgumentTypes::Register32])) }
    else if opcode == 3 { Some(("add"@, seq![ArgumentTypes::Immediate32, ArgumentTypes::Register32])) }
    else if opcode == 4 { Some(("loadm dw"@, seq![ArgumentTypes::AbsPointer, ArgumentTypes::Register32])) }
    else if opcode == 5 { Some(("loadi dw"@, seq![ArgumentTypes::Immediate32, ArgumentTypes::Register32])) }
    else if opcode == 6 { Some(("add"@, seq![ArgumentTypes::AbsPointer, ArgumentTypes::Register32])) }
    else if opcode == 7 { Some(("loadm b"@, seq![ArgumentTypes::AbsPointer, ArgumentTypes::Register8])) }
    else if opcode == 8 { Some(("loadi b"@, seq![ArgumentTypes::Immediate8, ArgumentTypes::Register8])) }
    else if opcode == 9 { Some(("jmp"@, seq![ArgumentTypes::AbsPointer])) }
    else if opcode == 10 { Some(("jpc"@, seq![ArgumentTypes::AbsPointer, ArgumentTypes::Condition])) }
    else if opcode == 11 { Some(("call"@, seq![ArgumentTypes::AbsPointer])) }
    else if opcode == 12 { Some(("jpr"@, seq![ArgumentTypes::RelPointer])) }
    else if opcode == 13 { Some(("jrc"@, seq![ArgumentTypes::RelPointer, ArgumentTypes::Condition])) }
    else if opcode == 14 { Some(("callr"@, seq![ArgumentTypes::RelPointer])) }
    else if opcode == 15 { Some(("push"@, seq![ArgumentTypes::Register32])) }
    else if opcode == 16 { Some(("pop"@, seq![ArgumentTypes::Register32])) }
    else if opcode == 17 { Some(("ret"@, Seq::<ArgumentTypes>::empty())) }
    else if opcode == 18 { Some(("movrd"@, seq![ArgumentTypes::Register32, ArgumentTypes::Register32])) }
    else if opcode == 19 { Some(("movrw"@, seq![ArgumentTypes::Register16, ArgumentTypes::Register16])) }
    else if opcode == 20 { Some(("movrb"@, seq![ArgumentTypes::Register8, ArgumentTypes::Register8])) }
    else if opcode == 21 { Some(("int"@, seq![ArgumentTypes::Immediate8])) }
    else if opcode == 22 { Some(("isub"@, seq![ArgumentTypes::Immediate32, ArgumentTypes::Register32])) }
    else if opcode == 23 { Some(("msub"@, seq![ArgumentTypes::AbsPointer, ArgumentTypes::Register32])) }
    else if opcode == 24 { Some(("rsub"@, seq![ArgumentTypes::Register32, ArgumentTypes::Register32])) }
    else if opcode == 25 { Some(("ngi"@, seq![ArgumentTypes::Register32])) }
    else if opcode == 26 { Some(("rmulsd"@, seq![ArgumentTypes::Register32, ArgumentTypes::Register32])) }
    else if opcode == 27 { Some(("rdivsd"@, seq![ArgumentTypes::Register32, ArgumentTypes::Register32])) }
    else if opcode == 28 { Some(("rmulud"@, seq![ArgumentTypes::Register32, ArgumentTypes::Register32])) }
    else if opcode == 29 { Some(("rdivud"@, seq![ArgumentTypes::Register32, ArgumentTypes::Register32])) }
    else if opcode == 30 { Some(("imulsd"@, seq![ArgumentTypes::Immediate32, ArgumentTypes::Register32])) }
    else if opcode == 31 { Some(("idivsd"@, seq![ArgumentTypes::Immediate32, ArgumentTypes::Register32])) }
    else if opcode == 32 { Some(("imulud"@, seq![ArgumentTypes::Immediate32, ArgumentTypes::Register32])) }
    else if opcode == 33 { Some(("idivud"@, seq![ArgumentTypes::Immediate32, ArgumentTypes::Register32])) }
    else if opcode == 34 { Some(("cvsdf"@, seq![ArgumentTypes::Register32])) }
    else if opcode == 35 { Some(("cvfsd"@, seq![ArgumentTypes::Register32])) }
    else { None }
}

/// The opcode a mnemonic stands for, if the mnemonic is known.
pub open spec fn spec_opcode(name: Seq<char>) -> Option<u16> {
    if name == "nop"@ { Some(0u16) }
    else if name == "halt"@ { Some(1u16) }
    else if name == "radd"@ { Some(2u16) }
    else if name == "iadd"@ { Some(3u16) }
    else if name == "loadmd"@ { Some(4u16) }
    else if name == "loadid"@ { Some(5u16) }
    else if name == "madd"@ { Some(6u16) }
    else if name == "loadmb"@ { Some(7u16) }
    else if name == "loadib"@ { Some(8u16) }
    else if name == "jmp"@ { Some(9u16) }
    else if name == "jpc"@ { Some(10u16) }
    else if name == "call"@ { Some(11u16) }
    else if name == "jpr"@ { Some(12u16) }
    else if name == "jrc"@ { Some(13u16) }
    else if name == "callr"@ { Some(14u16) }
    else if name == "push"@ { Some(15u16) }
    else if name == "pop"@ { Some(16u16) }
    else if name == "ret"@ { Some(17u16) }
    else if name == "movrd"@ { Some(18u16) }
    else if name == "movrw"@ { Some(19u16) }
    else if name == "movrb"@ { Some(20u16) }
    else if name == "int"@ { Some(21u16) }
    else if name == "isub"@ { Some(22u16) }
    else if name == "msub"@ { Some(23u16) }
    else if name == "rsub"@ { Some(24u16) }
    else if name == "ngi"@ { Some(25u16) }
    else if name == "rmulsd"@ { Some(26u16) }
    else if name == "rdivsd"@ { Some(27u16) }
    else if name == "rmulud"@ { Some(28u16) }
    else if name == "rdivud"@ { Some(29u16) }
    else if name == "imulsd"@ { Some(30u16) }
    else if name == "idivsd"@ { Some(31u16) }
    else if name == "imulud"@ { Some(32u16) }
    else if name == "idivud"@ { Some(33u16) }
    else if name == "cvsdf"@ { Some(34u16) }
    else if name == "cvfsd"@ { Some(35u16) }
    else { None }
}

/// No registry row has more than two arguments.
pub proof fn lemma_row_args_len(opcode: u16)
    ensures
        spec_instruction(opcode) matches Some(row) ==> row.1.len() <= 2,
{
}

/// A short argument list has a small encoded size.
pub proof fn lemma_args_size_small(args: Seq<ArgumentTypes>)
    ensures
        spec_args_size(args) <= 4 * args.len(),
    decreases args.len(),
{
    if args.len() > 0 {
        lemma_args_size_small(args.drop_last());
    }
}

/// Every mnemonic maps to an opcode the registry has a row for.
pub proof fn lemma_opcode_has_instruction(name: Seq<char>)
    ensures
        spec_opcode(name) is Some ==> spec_instruction(spec_opcode(name)->Some_0) is Some,
{
}

/// The immutable instruction registry.
pub struct Instructions {}

impl Instructions {
    pub fn new() -> (r: Self) {
        Instructions {}
    }

    /// Maps a mnemonic to its opcode.
    pub fn get_opcode(&self, name: &[char]) -> (r: Option<u16>)
        ensures
            r == spec_opcode(name@),
    {
        if eq_str(name, "nop") { Some(0) }
        else if eq_str(name, "halt") { Some(1) }
        else if eq_str(name, "radd") { Some(2) }
        else if eq_str(name, "iadd") { Some(3) }
        else if eq_str(name, "loadmd") { Some(4) }
        else if eq_str(name, "loadid") { Some(5) }
        else if eq_str(name, "madd") { Some(6) }
        else if eq_str(name, "loadmb") { Some(7) }
        else if eq_str(name, "loadib") { Some(8) }
        else if eq_str(name, "jmp") { Some(9) }
        else if eq_str(name, "jpc") { Some(10) }
        else if eq_str(name, "call") { Some(11) }
        else if eq_str(name, "jpr") { Some(12) }
        else if eq_str(name, "jrc") { Some(13) }
        else if eq_str(name, "callr") { Some(14) }
        else if eq_str(name, "push") { Some(15) }
        else if eq_str(name, "pop") { Some(16) }
        else if eq_str(name, "ret") { Some(17) }
        else if eq_str(name, "movrd") { Some(18) }
        else if eq_str(name, "movrw") { Some(19) }
        else if eq_str(name, "movrb") { Some(20) }
        else if eq_str(name, "int") { Some(21) }
        else if eq_str(name, "isub") { Some(22) }
        else if eq_str(name, "msub") { Some(23) }
        else if eq_str(name, "rsub") { Some(24) }
        else if eq_str(name, "ngi") { Some(25) }
        else if eq_str(name, "rmulsd") { Some(26) }
        else if eq_str(name, "rdivsd") { Some(27) }
        else if eq_str(name, "rmulud") { Some(28) }
        else if eq_str(name, "rdivud") { Some(29) }
        else if eq_str(name, "imulsd") { Some(30) }
        else if eq_str(name, "idivsd") { Some(31) }
        else if eq_str(name, "imulud") { Some(32) }
        else if eq_str(name, "idivud") { Some(33) }
        else if eq_str(name, "cvsdf") { Some(34) }
        else if eq_str(name, "cvfsd") { Some(35) }
        else { None }
    }

    /// Fetches the registry row for an opcode.
    pub fn get_instruction(&self, opcode: u16) -> (r: Option<Instruction>)
        ensures
            match spec_instruction(opcode) {
                Some(row) => r is Some && r->Some_0.opcode == opcode
                    && r->Some_0.name@ == row.0 && r->Some_0.args@ == row.1,
                None => r is None,
            },
    {
        let (name, args): (&str, Vec<ArgumentTypes>) = match opcode {
            0 => ("nop", vec![]),
            1 => ("halt", vec![]),
            2 => ("add", vec![ArgumentTypes::Register32, ArgumentTypes::Register32]),
            3 => ("add", vec![ArgumentTypes::Immediate32, ArgumentTypes::Register32]),
            4 => ("loadm dw", vec![ArgumentTypes::AbsPointer, ArgumentTypes::Register32]),
            5 => ("loadi dw", vec![ArgumentTypes::Immediate32, ArgumentTypes::Register32]),
            6 => ("add", vec![ArgumentTypes::AbsPointer, ArgumentTypes::Register32]),
            7 => ("loadm b", vec![ArgumentTypes::AbsPointer, ArgumentTypes::Register8]),
            8 => ("loadi b", vec![ArgumentTypes::Immediate8, ArgumentTypes::Register8]),
            9 => ("jmp", vec![ArgumentTypes::AbsPointer]),
            10 => ("jpc", vec![ArgumentTypes::AbsPointer, ArgumentTypes::Condition]),
            11 => ("call", vec![ArgumentTypes::AbsPointer]),
            12 => ("jpr", vec![ArgumentTypes::RelPointer]),
            13 => ("jrc", vec![ArgumentTypes::RelPointer, ArgumentTypes::Condition]),
            14 => ("callr", vec![ArgumentTypes::RelPointer]),
            15 => ("push", vec![ArgumentTypes::Register32]),
            16 => ("pop", vec![ArgumentTypes::Register32]),
            17 => ("ret", vec![]),
            18 => ("movrd", vec![ArgumentTypes::Register32, ArgumentTypes::Register32]),
            19 => ("movrw", vec![ArgumentTypes::Register16, ArgumentTypes::Register16]),
            20 => ("movrb", vec![ArgumentTypes::Register8, ArgumentTypes::Register8]),
            21 => ("int", vec![ArgumentTypes::Immediate8]),
            22 => ("isub", vec![ArgumentTypes::Immediate32, ArgumentTypes::Register32]),
            23 => ("msub", vec![ArgumentTypes::AbsPointer, ArgumentTypes::Register32]),
            24 => ("rsub", vec![ArgumentTypes::Register32, ArgumentTypes::Register32]),
            25 => ("ngi", vec![ArgumentTypes::Register32]),
            26 => ("rmulsd", vec![ArgumentTypes::Register32, ArgumentTypes::Register32]),
            27 => ("rdivsd", vec![ArgumentTypes::Register32, ArgumentTypes::Register32]),
            28 => ("rmulud", vec![ArgumentTypes::Register32, ArgumentTypes::Register32]),
            29 => ("rdivud", vec![ArgumentTypes::Register32, ArgumentTypes::Register32]),
            30 => ("imulsd", vec![ArgumentTypes::Immediate32, ArgumentTypes::Register32]),
            31 => ("idivsd", vec![ArgumentTypes::Immediate32, ArgumentTypes::Register32]),
            32 => ("imulud", vec![ArgumentTypes::Immediate32, ArgumentTypes::Register32]),
            33 => ("idivud", vec![ArgumentTypes::Immediate32, ArgumentTypes::Register32]),
            34 => ("cvsdf", vec![ArgumentTypes::Register32]),
            35 => ("cvfsd", vec![ArgumentTypes::Register32]),
            _ => {
                return None;
            },
        };
        Some(Instruction { name: crate::text::chars_of(name), opcode, args })
    }
}

} // verus!
