//! The object model and its on-disk form.
//!
//! An object holds named sections; a section holds either instructions or
//! binary units, never both.  An instruction carries unresolved references
//! and typed constants keyed by argument position, with at most one of the
//! two per position.  The byte format is little-endian throughout, with
//! NUL-terminated names; reading back what was written restores the object
//! exactly.

use vstd::prelude::*;
use vstd::bytes::{
    spec_u16_to_le_bytes, spec_u16_from_le_bytes, lemma_auto_spec_u16_to_from_le_bytes,
    spec_u32_to_le_bytes, spec_u32_from_le_bytes, lemma_auto_spec_u32_to_from_le_bytes,
    spec_u64_to_le_bytes, spec_u64_from_le_bytes, lemma_auto_spec_u64_to_from_le_bytes,
    u16_to_le_bytes, u16_from_le_bytes, u32_to_le_bytes, u32_from_le_bytes, u64_to_le_bytes,
    u64_from_le_bytes,
};

verus! {

/// The marker at the head of every object file.
pub const MAGIC_FORMAT_NUMBER: u64 = 0x3A6863FC6173371B;

/// The format version this library writes.
pub const CURRENT_FORMAT_VERSION: u32 = 4;

/// Why reading or writing an object failed.
#[derive(Clone, Copy, Debug, PartialEq, Eq, Structural)]
pub enum ObjectError {
    /// The input ended inside a structure.
    Truncated,
    /// A constant width was not 1, 2 or 4.
    BadSize,
    /// A section declares the same label twice.
    DuplicateLabel,
    /// The file does not start with the format's magic number.
    BadMagic,
    /// A binary unit's tag was neither constant nor reference.
    BadUnitTag,
    /// A reference and a constant share an argument position.
    Overlap,
    /// A section holds both instructions and binary units.
    MixedSection,
    /// A binary unit carries neither a constant nor a reference.
    EmptyUnit,
    /// A name the NUL-terminated wire form cannot carry.
    BadName,
}

// ---------------------------------------------------------------------------
// The model and its views.

/// An unresolved label use at an argument position.
#[derive(Debug)]
pub struct Reference {
    pub argument_pos: u8,
    pub rf: Vec<char>,
}

pub ghost struct RefView {
    pub argument_pos: u8,
    pub rf: Seq<char>,
}

impl DeepView for Reference {
    type V = RefView;

    open spec fn deep_view(&self) -> RefView {
        RefView { argument_pos: self.argument_pos, rf: self.rf@ }
    }
}

impl Clone for Reference {
    /// A copy equal in every field.
    fn clone(&self) -> (r: Self)
        ensures
            r.deep_view() == self.deep_view(),
    {
        Reference { argument_pos: self.argument_pos, rf: crate::text::clone_chars(&self.rf) }
    }
}

/// The width of an encoded constant, in bytes.
#[derive(Debug, Clone, Copy, PartialEq, Eq, Structural)]
pub enum ConstantSize {
    Byte,
    Word,
    DoubleWord,
}

impl ConstantSize {
    /// The width a size byte stands for.
    pub open spec fn spec_from_u8(n: u8) -> Option<ConstantSize> {
        match n {
            1u8 => Some(ConstantSize::Byte),
            2u8 => Some(ConstantSize::Word),
            4u8 => Some(ConstantSize::DoubleWord),
            _ => None,
        }
    }

    pub fn from_u8(n: u8) -> (r: Option<Self>)
        ensures
            r == Self::spec_from_u8(n),
    {
        match n {
            1 => Some(ConstantSize::Byte),
            2 => Some(ConstantSize::Word),
            4 => Some(ConstantSize::DoubleWord),
            _ => None,
        }
    }

    /// The width in bytes.
    pub open spec fn spec_size(self) -> nat {
        match self {
            ConstantSize::Byte => 1,
            ConstantSize::Word => 2,
            ConstantSize::DoubleWord => 4,
        }
    }

    fn to_u8(&self) -> (r: u8)
        ensures
            r == self.spec_size(),
    {
        match self {
            ConstantSize::Byte => 1,
            ConstantSize::Word => 2,
            ConstantSize::DoubleWord => 4,
        }
    }

    pub fn get_size(&self) -> (r: usize)
        ensures
            r == self.spec_size(),
    {
        self.to_u8() as usize
    }
}

/// A literal value at an argument position, with its encoded width.
#[derive(Debug, Clone, Copy, PartialEq, Eq, Structural)]
pub struct Constant {
    pub argument_pos: u8,
    pub size: ConstantSize,
    pub value: i64,
}

/// Whether a value fits the two's-complement range of a width.
pub open spec fn in_size_range(value: i64, size: ConstantSize) -> bool {
    match size {
        ConstantSize::Byte => -0x80 <= value < 0x80,
        ConstantSize::Word => -0x8000 <= value < 0x8000,
        ConstantSize::DoubleWord => -0x8000_0000 <= value < 0x8000_0000,
    }
}

/// An instruction in the object model: an opcode with its unresolved
/// references and literal constants, each keyed by argument position.
#[derive(Debug)]
pub struct InstructionData {
    pub opcode: u16,
    pub references: Vec<Reference>,
    pub constants: Vec<Constant>,
}

pub ghost struct InstrView {
    pub opcode: u16,
    pub references: Seq<RefView>,
    pub constants: Seq<Constant>,
}

impl DeepView for InstructionData {
    type V = InstrView;

    open spec fn deep_view(&self) -> InstrView {
        InstrView {
            opcode: self.opcode,
            references: self.references.deep_view(),
            constants: self.constants@,
        }
    }
}

impl Clone for InstructionData {
    /// A copy equal in every field.
    fn clone(&self) -> (r: Self)
        ensures
            r.deep_view() == self.deep_view(),
    {
        let mut references: Vec<Reference> = Vec::new();
        let mut i: usize = 0;
        while i < self.references.len()
            invariant
                i <= self.references@.len(),
                references.deep_view() =~= self.references.deep_view().subrange(0, i as int),
            decreases self.references@.len() - i,
        {
            let ghost pre = references.deep_view();
            let c = self.references[i].clone();
            let ghost cv = c.deep_view();
            references.push(c);
            i = i + 1;
            proof {
                assert(references.deep_view() =~= pre.push(cv));
                assert(cv == self.references.deep_view()[i - 1]);
                assert(references.deep_view()
                    =~= self.references.deep_view().subrange(0, i as int));
            }
        }
        let mut constants: Vec<Constant> = Vec::new();
        let mut j: usize = 0;
        while j < self.constants.len()
            invariant
                j <= self.constants@.len(),
                constants@ =~= self.constants@.subrange(0, j as int),
            decreases self.constants@.len() - j,
        {
            constants.push(self.constants[j]);
            j = j + 1;
            proof {
                assert(constants@ =~= self.constants@.subrange(0, j as int));
            }
        }
        let r = InstructionData { opcode: self.opcode, references, constants };
        proof {
            assert(r.references.deep_view() =~= self.references.deep_view());
            assert(r.constants@ =~= self.constants@);
        }
        r
    }
}

/// Whether an argument position carries a reference or a constant of this
/// instruction.
pub open spec fn ref_at(i: InstrView, pos: u8) -> bool {
    exists|k: int| 0 <= k < i.references.len() && i.references[k].argument_pos == pos
}

pub open spec fn const_at(i: InstrView, pos: u8) -> bool {
    exists|k: int| 0 <= k < i.constants.len() && i.constants[k].argument_pos == pos
}

/// A well-formed instruction: few enough arguments for the wire counts,
/// names that can be written, constants inside their width, and no
/// argument position carrying both a reference and a constant.
pub open spec fn instr_wf(i: InstrView) -> bool {
    &&& i.references.len() < 256
    &&& i.constants.len() < 256
    &&& forall|k: int| 0 <= k < i.references.len() ==> name_wf(#[trigger] i.references[k].rf)
    &&& forall|k: int| 0 <= k < i.constants.len()
        ==> in_size_range((#[trigger] i.constants[k]).value, i.constants[k].size)
    &&& forall|pos: u8| !(#[trigger] ref_at(i, pos) && const_at(i, pos))
}

/// A label: a name and an index into its section's content sequence.
#[derive(Debug)]
pub struct ObjectLabelSymbol {
    pub name: Vec<char>,
    pub ptr: u64,
}

pub ghost struct LabelView {
    pub name: Seq<char>,
    pub ptr: u64,
}

impl DeepView for ObjectLabelSymbol {
    type V = LabelView;

    open spec fn deep_view(&self) -> LabelView {
        LabelView { name: self.name@, ptr: self.ptr }
    }
}

impl Clone for ObjectLabelSymbol {
    /// A copy equal in every field.
    fn clone(&self) -> (r: Self)
        ensures
            r.deep_view() == self.deep_view(),
    {
        ObjectLabelSymbol { name: crate::text::clone_chars(&self.name), ptr: self.ptr }
    }
}

/// A symbolic entry of a data section, resolved at link time.
#[derive(Debug)]
pub struct BinaryReference {
    pub rf: Vec<char>,
    pub size: ConstantSize,
}

pub ghost struct BinRefView {
    pub rf: Seq<char>,
    pub size: ConstantSize,
}

impl DeepView for BinaryReference {
    type V = BinRefView;

    open spec fn deep_view(&self) -> BinRefView {
        BinRefView { rf: self.rf@, size: self.size }
    }
}

impl Clone for BinaryReference {
    /// A copy equal in every field.
    fn clone(&self) -> (r: Self)
        ensures
            r.deep_view() == self.deep_view(),
    {
        BinaryReference { rf: crate::text::clone_chars(&self.rf), size: self.size }
    }
}

/// A literal entry of a data section.
#[derive(Debug, Clone, Copy, PartialEq, Eq, Structural)]
pub struct BinaryConstant {
    pub size: ConstantSize,
    pub value: i64,
}

/// One element of a data section: a typed constant or a typed reference.
#[derive(Debug)]
pub struct BinaryUnit {
    pub reference: Option<BinaryReference>,
    pub constant: Option<BinaryConstant>,
}

pub ghost struct UnitView {
    pub reference: Option<BinRefView>,
    pub constant: Option<BinaryConstant>,
}

impl DeepView for BinaryUnit {
    type V = UnitView;

    open spec fn deep_view(&self) -> UnitView {
        UnitView {
            reference: match &self.reference {
                Some(r) => Some(r.deep_view()),
                None => None,
            },
            constant: self.constant,
        }
    }
}

impl Clone for BinaryUnit {
    /// A copy equal in every field.
    fn clone(&self) -> (r: Self)
        ensures
            r.deep_view() == self.deep_view(),
    {
        BinaryUnit {
            reference: match &self.reference {
                Some(r) => Some(r.clone()),
                None => None,
            },
            constant: self.constant,
        }
    }
}

/// The encoded width of a unit, when it carries anything.
pub open spec fn spec_unit_size(u: UnitView) -> Option<nat> {
    match u.constant {
        Some(c) => Some(c.size.spec_size()),
        None => match u.reference {
            Some(r) => Some(r.size.spec_size()),
            None => None,
        },
    }
}

impl BinaryUnit {
    /// The encoded width of this unit, when it carries anything.
    pub fn get_size(&self) -> (r: Option<usize>)
        ensures
            match spec_unit_size(self.deep_view()) {
                Some(n) => r is Some && r->Some_0 == n,
                None => r is None,
            },
    {
        if let Some(cst) = &self.constant {
            Some(cst.size.get_size())
        } else if let Some(reference) = &self.reference {
            Some(reference.size.get_size())
        } else {
            None
        }
    }
}

/// A well-formed unit carries exactly one of a constant or a reference,
/// with a writable name.
pub open spec fn unit_wf(u: UnitView) -> bool {
    &&& (u.constant is Some) != (u.reference is Some)
    &&& u.reference matches Some(r) ==> name_wf(r.rf)
}

/// A character the NUL-terminated wire form can carry: ASCII, not NUL.
pub open spec fn narrow_char(c: char) -> bool {
    0 < (c as u32) && (c as u32) < 128
}

/// A name that the NUL-terminated wire form can carry.
pub open spec fn name_wf(name: Seq<char>) -> bool {
    forall|i: int| 0 <= i < name.len() ==> narrow_char(#[trigger] name[i])
}

/// Checks that the wire form can carry a name.
pub fn name_ok(name: &[char]) -> (r: bool)
    ensures
        r == name_wf(name@),
{
    let mut i: usize = 0;
    while i < name.len()
        invariant
            i <= name@.len(),
            forall|m: int| 0 <= m < i ==> narrow_char(#[trigger] name@[m]),
        decreases name@.len() - i,
    {
        let u = name[i] as u32;
        if u == 0 || u >= 128 {
            proof {
                assert(!narrow_char(name@[i as int]));
            }
            return false;
        }
        i = i + 1;
    }
    true
}

/// A named, ordered region of an object: either code or data.
#[derive(Debug)]
pub struct SectionData {
    pub name: Vec<char>,
    pub instructions: Vec<InstructionData>,
    pub labels: Vec<ObjectLabelSymbol>,
    pub binary_data: Vec<BinaryUnit>,
    pub binary_section: bool,
}

pub ghost struct SectionView {
    pub name: Seq<char>,
    pub instructions: Seq<InstrView>,
    pub labels: Seq<LabelView>,
    pub binary_data: Seq<UnitView>,
    pub binary_section: bool,
}

impl DeepView for SectionData {
    type V = SectionView;

    open spec fn deep_view(&self) -> SectionView {
        SectionView {
            name: self.name@,
            instructions: self.instructions.deep_view(),
            labels: self.labels.deep_view(),
            binary_data: self.binary_data.deep_view(),
            binary_section: self.binary_section,
        }
    }
}

/// A well-formed section: a writable name, unique writable label names,
/// well-formed contents, and never both instructions and binary units.
pub open spec fn section_wf(s: SectionView) -> bool {
    &&& name_wf(s.name)
    &&& forall|k: int| 0 <= k < s.labels.len() ==> name_wf(#[trigger] s.labels[k].name)
    &&& forall|k1: int, k2: int|
        0 <= k1 < k2 < s.labels.len() ==> s.labels[k1].name != s.labels[k2].name
    &&& forall|k: int| 0 <= k < s.instructions.len() ==> instr_wf(#[trigger] s.instructions[k])
    &&& forall|k: int| 0 <= k < s.binary_data.len() ==> unit_wf(#[trigger] s.binary_data[k])
    &&& !(s.instructions.len() > 0 && s.binary_data.len() > 0)
    &&& s.binary_section == (s.binary_data.len() > 0)
}

/// The header of an object file.
#[derive(Debug, Clone, Copy, PartialEq, Eq, Structural)]
pub struct ObjectFormatHeader {
    pub magic: u64,
    pub sections_length: u64,
    pub version: u32,
}

/// The header's size on the wire.
pub const HEADER_SIZE: u64 = 20;

impl ObjectFormatHeader {
    pub fn new() -> (r: Self)
        ensures
            r.magic == MAGIC_FORMAT_NUMBER,
            r.sections_length == 0,
            r.version == CURRENT_FORMAT_VERSION,
    {
        ObjectFormatHeader {
            magic: MAGIC_FORMAT_NUMBER,
            sections_length: 0,
            version: CURRENT_FORMAT_VERSION,
        }
    }
}

// ---------------------------------------------------------------------------
// The wire form.

/// A name on the wire: one byte per character, then a NUL.
pub open spec fn spec_name_bytes(name: Seq<char>) -> Seq<u8> {
    Seq::new(name.len(), |i: int| (name[i] as u32) as u8) + seq![0u8]
}

/// A signed value truncated to a width, little-endian.
pub open spec fn spec_value_bytes(value: i64, size: ConstantSize) -> Seq<u8> {
    match size {
        ConstantSize::Byte => seq![(value as i8) as u8],
        ConstantSize::Word => spec_u16_to_le_bytes((value as i16) as u16),
        ConstantSize::DoubleWord => spec_u32_to_le_bytes((value as i32) as u32),
    }
}

pub open spec fn spec_ref_bytes(r: RefView) -> Seq<u8> {
    seq![r.argument_pos] + spec_name_bytes(r.rf)
}

pub open spec fn spec_const_bytes(c: Constant) -> Seq<u8> {
    seq![c.argument_pos, c.size.spec_size() as u8] + spec_value_bytes(c.value, c.size)
}

pub open spec fn spec_refs_bytes(rs: Seq<RefView>) -> Seq<u8>
    decreases rs.len(),
{
    if rs.len() == 0 {
        Seq::empty()
    } else {
        spec_ref_bytes(rs[0]) + spec_refs_bytes(rs.drop_first())
    }
}

pub open spec fn spec_consts_bytes(cs: Seq<Constant>) -> Seq<u8>
    decreases cs.len(),
{
    if cs.len() == 0 {
        Seq::empty()
    } else {
        spec_const_bytes(cs[0]) + spec_consts_bytes(cs.drop_first())
    }
}

pub open spec fn spec_instr_bytes(i: InstrView) -> Seq<u8> {
    spec_u16_to_le_bytes(i.opcode) + seq![i.references.len() as u8, i.constants.len() as u8]
        + spec_refs_bytes(i.references) + spec_consts_bytes(i.constants)
}

pub open spec fn spec_label_bytes(l: LabelView) -> Seq<u8> {
    spec_u64_to_le_bytes(l.ptr) + spec_name_bytes(l.name)
}

/// A unit on the wire: a tag byte, then the payload.  A unit that carries
/// both sides is written as its constant; an empty one cannot be written.
pub open spec fn spec_unit_bytes(u: UnitView) -> Seq<u8> {
    match u.constant {
        Some(c) => seq![0u8, c.size.spec_size() as u8] + spec_u64_to_le_bytes(c.value as u64),
        None => match u.reference {
            Some(r) => seq![1u8, r.size.spec_size() as u8] + spec_name_bytes(r.rf),
            None => Seq::empty(),
        },
    }
}

pub open spec fn spec_labels_bytes(ls: Seq<LabelView>) -> Seq<u8>
    decreases ls.len(),
{
    if ls.len() == 0 {
        Seq::empty()
    } else {
        spec_label_bytes(ls[0]) + spec_labels_bytes(ls.drop_first())
    }
}

pub open spec fn spec_instrs_bytes(is: Seq<InstrView>) -> Seq<u8>
    decreases is.len(),
{
    if is.len() == 0 {
        Seq::empty()
    } else {
        spec_instr_bytes(is[0]) + spec_instrs_bytes(is.drop_first())
    }
}

pub open spec fn spec_units_bytes(us: Seq<UnitView>) -> Seq<u8>
    decreases us.len(),
{
    if us.len() == 0 {
        Seq::empty()
    } else {
        spec_unit_bytes(us[0]) + spec_units_bytes(us.drop_first())
    }
}

pub open spec fn spec_section_bytes(s: SectionView) -> Seq<u8> {
    spec_u64_to_le_bytes(s.instructions.len() as u64)
        + spec_u64_to_le_bytes(s.labels.len() as u64)
        + spec_u64_to_le_bytes(s.binary_data.len() as u64)
        + spec_name_bytes(s.name)
        + spec_labels_bytes(s.labels)
        + spec_instrs_bytes(s.instructions)
        + spec_units_bytes(s.binary_data)
}

pub open spec fn spec_header_bytes(h: ObjectFormatHeader) -> Seq<u8> {
    spec_u64_to_le_bytes(h.magic) + spec_u64_to_le_bytes(h.sections_length)
        + spec_u32_to_le_bytes(h.version)
}

pub open spec fn spec_sections_bytes(ss: Seq<SectionView>) -> Seq<u8>
    decreases ss.len(),
{
    if ss.len() == 0 {
        Seq::empty()
    } else {
        spec_section_bytes(ss[0]) + spec_sections_bytes(ss.drop_first())
    }
}

/// A whole object on the wire: the header, then each section in order.
pub open spec fn spec_object_bytes(h: ObjectFormatHeader, ss: Seq<SectionView>) -> Seq<u8> {
    spec_header_bytes(h) + spec_sections_bytes(ss)
}

// ---------------------------------------------------------------------------
// Reading the wire form back: each parser consumes a prefix and returns the
// remainder.

pub open spec fn spec_take8(b: Seq<u8>) -> Result<(u8, Seq<u8>), ObjectError> {
    if b.len() >= 1 {
        Ok((b[0], b.skip(1)))
    } else {
        Err(ObjectError::Truncated)
    }
}

pub open spec fn spec_take16(b: Seq<u8>) -> Result<(u16, Seq<u8>), ObjectError> {
    if b.len() >= 2 {
        Ok((spec_u16_from_le_bytes(b.subrange(0, 2)), b.skip(2)))
    } else {
        Err(ObjectError::Truncated)
    }
}

pub open spec fn spec_take32(b: Seq<u8>) -> Result<(u32, Seq<u8>), ObjectError> {
    if b.len() >= 4 {
        Ok((spec_u32_from_le_bytes(b.subrange(0, 4)), b.skip(4)))
    } else {
        Err(ObjectError::Truncated)
    }
}

pub open spec fn spec_take64(b: Seq<u8>) -> Result<(u64, Seq<u8>), ObjectError> {
    if b.len() >= 8 {
        Ok((spec_u64_from_le_bytes(b.subrange(0, 8)), b.skip(8)))
    } else {
        Err(ObjectError::Truncated)
    }
}

/// The position of the first NUL at or after `i`.
pub open spec fn spec_nz_len(b: Seq<u8>, i: nat) -> nat
    decreases b.len() - i,
    when i <= b.len()
{
    if i >= b.len() {
        i
    } else if b[i as int] == 0 {
        i
    } else {
        spec_nz_len(b, i + 1)
    }
}

pub open spec fn spec_take_name(b: Seq<u8>) -> Result<(Seq<char>, Seq<u8>), ObjectError> {
    let q = spec_nz_len(b, 0);
    if q < b.len() {
        Ok((Seq::new(q, |i: int| (b[i] as u32) as char), b.skip(q as int + 1)))
    } else {
        Err(ObjectError::Truncated)
    }
}

pub open spec fn spec_parse_value(b: Seq<u8>, size: ConstantSize) -> Result<
    (i64, Seq<u8>),
    ObjectError,
> {
    match size {
        ConstantSize::Byte => match spec_take8(b) {
            Ok((x, b1)) => Ok((((x as i8) as i64), b1)),
            Err(e) => Err(e),
        },
        ConstantSize::Word => match spec_take16(b) {
            Ok((x, b1)) => Ok((((x as i16) as i64), b1)),
            Err(e) => Err(e),
        },
        ConstantSize::DoubleWord => match spec_take32(b) {
            Ok((x, b1)) => Ok((((x as i32) as i64), b1)),
            Err(e) => Err(e),
        },
    }
}

pub open spec fn spec_parse_reference(b: Seq<u8>) -> Result<(RefView, Seq<u8>), ObjectError> {
    match spec_take8(b) {
        Ok((pos, b1)) => match spec_take_name(b1) {
            Ok((nm, b2)) => Ok((RefView { argument_pos: pos, rf: nm }, b2)),
            Err(e) => Err(e),
        },
        Err(e) => Err(e),
    }
}

pub open spec fn spec_parse_constant(b: Seq<u8>) -> Result<(Constant, Seq<u8>), ObjectError> {
    match spec_take8(b) {
        Ok((pos, b1)) => match spec_take8(b1) {
            Ok((sz, b2)) => match ConstantSize::spec_from_u8(sz) {
                None => Err(ObjectError::BadSize),
                Some(size) => match spec_parse_value(b2, size) {
                    Ok((v, b3)) => Ok((Constant { argument_pos: pos, size, value: v }, b3)),
                    Err(e) => Err(e),
                },
            },
            Err(e) => Err(e),
        },
        Err(e) => Err(e),
    }
}

pub open spec fn spec_parse_refs(b: Seq<u8>, n: nat) -> Result<
    (Seq<RefView>, Seq<u8>),
    ObjectError,
>
    decreases n,
{
    if n == 0 {
        Ok((Seq::empty(), b))
    } else {
        match spec_parse_reference(b) {
            Ok((r, b1)) => match spec_parse_refs(b1, (n - 1) as nat) {
                Ok((rest, b2)) => Ok((seq![r] + rest, b2)),
                Err(e) => Err(e),
            },
            Err(e) => Err(e),
        }
    }
}

pub open spec fn spec_parse_consts(b: Seq<u8>, n: nat) -> Result<
    (Seq<Constant>, Seq<u8>),
    ObjectError,
>
    decreases n,
{
    if n == 0 {
        Ok((Seq::empty(), b))
    } else {
        match spec_parse_constant(b) {
            Ok((c, b1)) => match spec_parse_consts(b1, (n - 1) as nat) {
                Ok((rest, b2)) => Ok((seq![c] + rest, b2)),
                Err(e) => Err(e),
            },
            Err(e) => Err(e),
        }
    }
}

/// No argument position carries both a reference and a constant.
pub open spec fn instr_disjoint(i: InstrView) -> bool {
    forall|pos: u8| !(#[trigger] ref_at(i, pos) && const_at(i, pos))
}

pub open spec fn spec_parse_instr(b: Seq<u8>) -> Result<(InstrView, Seq<u8>), ObjectError> {
    match spec_take16(b) {
        Ok((opcode, b1)) => match spec_take8(b1) {
            Ok((rc, b2)) => match spec_take8(b2) {
                Ok((cc, b3)) => match spec_parse_refs(b3, rc as nat) {
                    Ok((refs, b4)) => match spec_parse_consts(b4, cc as nat) {
                        Ok((consts, b5)) => {
                            let i = InstrView { opcode, references: refs, constants: consts };
                            if instr_disjoint(i) {
                                Ok((i, b5))
                            } else {
                                Err(ObjectError::Overlap)
                            }
                        },
                        Err(e) => Err(e),
                    },
                    Err(e) => Err(e),
                },
                Err(e) => Err(e),
            },
            Err(e) => Err(e),
        },
        Err(e) => Err(e),
    }
}

pub open spec fn spec_parse_label(b: Seq<u8>) -> Result<(LabelView, Seq<u8>), ObjectError> {
    match spec_take64(b) {
        Ok((ptr, b1)) => match spec_take_name(b1) {
            Ok((nm, b2)) => Ok((LabelView { name: nm, ptr }, b2)),
            Err(e) => Err(e),
        },
        Err(e) => Err(e),
    }
}

pub open spec fn label_name_taken(ls: Seq<LabelView>, name: Seq<char>) -> bool {
    exists|k: int| 0 <= k < ls.len() && ls[k].name == name
}

/// `n` labels, refusing a name that was already declared.
pub open spec fn spec_parse_labels(b: Seq<u8>, n: nat, acc: Seq<LabelView>) -> Result<
    (Seq<LabelView>, Seq<u8>),
    ObjectError,
>
    decreases n,
{
    if n == 0 {
        Ok((acc, b))
    } else {
        match spec_parse_label(b) {
            Ok((l, b1)) => {
                if label_name_taken(acc, l.name) {
                    Err(ObjectError::DuplicateLabel)
                } else {
                    spec_parse_labels(b1, (n - 1) as nat, acc.push(l))
                }
            },
            Err(e) => Err(e),
        }
    }
}

pub open spec fn spec_parse_unit(b: Seq<u8>) -> Result<(UnitView, Seq<u8>), ObjectError> {
    match spec_take8(b) {
        Ok((tag, b1)) => {
            if tag == 0 {
                match spec_take8(b1) {
                    Ok((sz, b2)) => match ConstantSize::spec_from_u8(sz) {
                        None => Err(ObjectError::BadSize),
                        Some(size) => match spec_take64(b2) {
                            Ok((v, b3)) => Ok((UnitView {
                                reference: None,
                                constant: Some(BinaryConstant { size, value: v as i64 }),
                            }, b3)),
                            Err(e) => Err(e),
                        },
                    },
                    Err(e) => Err(e),
                }
            } else if tag == 1 {
                match spec_take8(b1) {
                    Ok((sz, b2)) => match ConstantSize::spec_from_u8(sz) {
                        None => Err(ObjectError::BadSize),
                        Some(size) => match spec_take_name(b2) {
                            Ok((nm, b3)) => Ok((UnitView {
                                reference: Some(BinRefView { rf: nm, size }),
                                constant: None,
                            }, b3)),
                            Err(e) => Err(e),
                        },
                    },
                    Err(e) => Err(e),
                }
            } else {
                Err(ObjectError::BadUnitTag)
            }
        },
        Err(e) => Err(e),
    }
}

pub open spec fn spec_parse_instrs(b: Seq<u8>, n: nat) -> Result<
    (Seq<InstrView>, Seq<u8>),
    ObjectError,
>
    decreases n,
{
    if n == 0 {
        Ok((Seq::empty(), b))
    } else {
        match spec_parse_instr(b) {
            Ok((i, b1)) => match spec_parse_instrs(b1, (n - 1) as nat) {
                Ok((rest, b2)) => Ok((seq![i] + rest, b2)),
                Err(e) => Err(e),
            },
            Err(e) => Err(e),
        }
    }
}

pub open spec fn spec_parse_units(b: Seq<u8>, n: nat) -> Result<
    (Seq<UnitView>, Seq<u8>),
    ObjectError,
>
    decreases n,
{
    if n == 0 {
        Ok((Seq::empty(), b))
    } else {
        match spec_parse_unit(b) {
            Ok((u, b1)) => match spec_parse_units(b1, (n - 1) as nat) {
                Ok((rest, b2)) => Ok((seq![u] + rest, b2)),
                Err(e) => Err(e),
            },
            Err(e) => Err(e),
        }
    }
}

pub open spec fn spec_parse_section(b: Seq<u8>) -> Result<(SectionView, Seq<u8>), ObjectError> {
    match spec_take64(b) {
        Ok((icount, b1)) => match spec_take64(b1) {
            Ok((lcount, b2)) => match spec_take64(b2) {
                Ok((bcount, b3)) => match spec_take_name(b3) {
                    Ok((nm, b4)) => match spec_parse_labels(b4, lcount as nat, Seq::empty()) {
                        Ok((labels, b5)) => match spec_parse_instrs(b5, icount as nat) {
                            Ok((instrs, b6)) => match spec_parse_units(b6, bcount as nat) {
                                Ok((units, b7)) => Ok((SectionView {
                                    name: nm,
                                    instructions: instrs,
                                    labels,
                                    binary_data: units,
                                    binary_section: units.len() != 0,
                                }, b7)),
                                Err(e) => Err(e),
                            },
                            Err(e) => Err(e),
                        },
                        Err(e) => Err(e),
                    },
                    Err(e) => Err(e),
                },
                Err(e) => Err(e),
            },
            Err(e) => Err(e),
        },
        Err(e) => Err(e),
    }
}

pub open spec fn spec_parse_header(b: Seq<u8>) -> Result<
    (ObjectFormatHeader, Seq<u8>),
    ObjectError,
> {
    match spec_take64(b) {
        Ok((magic, b1)) => {
            if magic != MAGIC_FORMAT_NUMBER {
                Err(ObjectError::BadMagic)
            } else {
                match spec_take64(b1) {
                    Ok((len, b2)) => match spec_take32(b2) {
                        Ok((version, b3)) => Ok((ObjectFormatHeader {
                            magic,
                            sections_length: len,
                            version,
                        }, b3)),
                        Err(e) => Err(e),
                    },
                    Err(e) => Err(e),
                }
            }
        },
        Err(e) => Err(e),
    }
}

pub open spec fn spec_parse_sections(b: Seq<u8>, n: nat) -> Result<
    (Seq<SectionView>, Seq<u8>),
    ObjectError,
>
    decreases n,
{
    if n == 0 {
        Ok((Seq::empty(), b))
    } else {
        match spec_parse_section(b) {
            Ok((s, b1)) => match spec_parse_sections(b1, (n - 1) as nat) {
                Ok((rest, b2)) => Ok((seq![s] + rest, b2)),
                Err(e) => Err(e),
            },
            Err(e) => Err(e),
        }
    }
}

/// A whole object file: the header, then as many sections as it declares.
/// Trailing bytes are ignored.
pub open spec fn spec_parse_object(b: Seq<u8>) -> Result<
    (ObjectFormatHeader, Seq<SectionView>),
    ObjectError,
> {
    match spec_parse_header(b) {
        Ok((h, b1)) => match spec_parse_sections(b1, h.sections_length as nat) {
            Ok((ss, _b2)) => Ok((h, ss)),
            Err(e) => Err(e),
        },
        Err(e) => Err(e),
    }
}

// ---------------------------------------------------------------------------
// Reading back what was written restores the object.  One lemma per layer.

proof fn lemma_take8_rt(x: u8, rest: Seq<u8>)
    ensures
        spec_take8(seq![x] + rest) == Ok::<(u8, Seq<u8>), ObjectError>((x, rest)),
{
    let b = seq![x] + rest;
    assert(b[0] == x);
    assert(b.skip(1) =~= rest);
}

proof fn lemma_take16_rt(x: u16, rest: Seq<u8>)
    ensures
        spec_take16(spec_u16_to_le_bytes(x) + rest) == Ok::<(u16, Seq<u8>), ObjectError>((x, rest)),
{
    lemma_auto_spec_u16_to_from_le_bytes();
    let b = spec_u16_to_le_bytes(x) + rest;
    assert(b.subrange(0, 2) =~= spec_u16_to_le_bytes(x));
    assert(b.skip(2) =~= rest);
}

proof fn lemma_take32_rt(x: u32, rest: Seq<u8>)
    ensures
        spec_take32(spec_u32_to_le_bytes(x) + rest) == Ok::<(u32, Seq<u8>), ObjectError>((x, rest)),
{
    lemma_auto_spec_u32_to_from_le_bytes();
    let b = spec_u32_to_le_bytes(x) + rest;
    assert(b.subrange(0, 4) =~= spec_u32_to_le_bytes(x));
    assert(b.skip(4) =~= rest);
}

proof fn lemma_take64_rt(x: u64, rest: Seq<u8>)
    ensures
        spec_take64(spec_u64_to_le_bytes(x) + rest) == Ok::<(u64, Seq<u8>), ObjectError>((x, rest)),
{
    lemma_auto_spec_u64_to_from_le_bytes();
    let b = spec_u64_to_le_bytes(x) + rest;
    assert(b.subrange(0, 8) =~= spec_u64_to_le_bytes(x));
    assert(b.skip(8) =~= rest);
}

proof fn lemma_nz_scan(b: Seq<u8>, i: nat, q: nat)
    requires
        i <= q < b.len(),
        forall|j: int| i <= j < q ==> b[j] != 0,
        b[q as int] == 0,
    ensures
        spec_nz_len(b, i) == q,
    decreases q - i,
{
    if i < q {
        lemma_nz_scan(b, i + 1, q);
    }
}

proof fn lemma_name_rt(name: Seq<char>, rest: Seq<u8>)
    requires
        name_wf(name),
    ensures
        spec_take_name(spec_name_bytes(name) + rest)
            == Ok::<(Seq<char>, Seq<u8>), ObjectError>((name, rest)),
{
    broadcast use vstd::utf8::char_u32_cast;

    let b = spec_name_bytes(name) + rest;
    let n = name.len();
    assert forall|j: int| 0 <= j < n implies b[j] != 0 by {
        assert(narrow_char(name[j]));
        assert((name[j] as u32) < 128);
        assert(spec_name_bytes(name)[j] == (name[j] as u32) as u8);
        assert(b[j] == (name[j] as u32) as u8);
    }
    assert(b[n as int] == 0u8);
    lemma_nz_scan(b, 0, n);
    let parsed = Seq::new(n, |i: int| (b[i] as u32) as char);
    assert forall|j: int| 0 <= j < n implies parsed[j] == name[j] by {
        assert(narrow_char(name[j]));
        let u = name[j] as u32;
        assert(u < 128);
        assert(b[j] == u as u8);
        assert((u as u8) as u32 == u);
        assert(parsed[j] == ((u as u8) as u32) as char);
        vstd::utf8::char_u32_cast(name[j], u);
        assert((u as char) == name[j]);
    }
    assert(parsed =~= name);
    assert(b.skip(n as int + 1) =~= rest);
}

proof fn lemma_value_rt(v: i64, size: ConstantSize, rest: Seq<u8>)
    requires
        in_size_range(v, size),
    ensures
        spec_parse_value(spec_value_bytes(v, size) + rest, size)
            == Ok::<(i64, Seq<u8>), ObjectError>((v, rest)),
{
    match size {
        ConstantSize::Byte => {
            lemma_take8_rt((v as i8) as u8, rest);
            assert(((v as i8) as u8) as i8 == v as i8) by (bit_vector);
        },
        ConstantSize::Word => {
            lemma_take16_rt((v as i16) as u16, rest);
            assert(((v as i16) as u16) as i16 == v as i16) by (bit_vector);
        },
        ConstantSize::DoubleWord => {
            lemma_take32_rt((v as i32) as u32, rest);
            assert(((v as i32) as u32) as i32 == v as i32) by (bit_vector);
        },
    }
}

proof fn lemma_ref_rt(r: RefView, rest: Seq<u8>)
    requires
        name_wf(r.rf),
    ensures
        spec_parse_reference(spec_ref_bytes(r) + rest)
            == Ok::<(RefView, Seq<u8>), ObjectError>((r, rest)),
{
    let b = spec_ref_bytes(r) + rest;
    assert(b =~= seq![r.argument_pos] + (spec_name_bytes(r.rf) + rest));
    lemma_take8_rt(r.argument_pos, spec_name_bytes(r.rf) + rest);
    lemma_name_rt(r.rf, rest);
}

proof fn lemma_const_rt(c: Constant, rest: Seq<u8>)
    requires
        in_size_range(c.value, c.size),
    ensures
        spec_parse_constant(spec_const_bytes(c) + rest)
            == Ok::<(Constant, Seq<u8>), ObjectError>((c, rest)),
{
    let sz = c.size.spec_size() as u8;
    let b = spec_const_bytes(c) + rest;
    assert(b =~= seq![c.argument_pos]
        + (seq![sz] + (spec_value_bytes(c.value, c.size) + rest)));
    lemma_take8_rt(c.argument_pos, seq![sz] + (spec_value_bytes(c.value, c.size) + rest));
    lemma_take8_rt(sz, spec_value_bytes(c.value, c.size) + rest);
    assert(ConstantSize::spec_from_u8(sz) == Some(c.size));
    lemma_value_rt(c.value, c.size, rest);
}

proof fn lemma_refs_rt(rs: Seq<RefView>, rest: Seq<u8>)
    requires
        forall|k: int| 0 <= k < rs.len() ==> name_wf(#[trigger] rs[k].rf),
    ensures
        spec_parse_refs(spec_refs_bytes(rs) + rest, rs.len())
            == Ok::<(Seq<RefView>, Seq<u8>), ObjectError>((rs, rest)),
    decreases rs.len(),
{
    if rs.len() == 0 {
        assert(spec_refs_bytes(rs) + rest =~= rest);
        assert(rs =~= Seq::<RefView>::empty());
    } else {
        let tail = rs.drop_first();
        assert(spec_refs_bytes(rs) + rest
            =~= spec_ref_bytes(rs[0]) + (spec_refs_bytes(tail) + rest));
        lemma_ref_rt(rs[0], spec_refs_bytes(tail) + rest);
        lemma_refs_rt(tail, rest);
        assert(seq![rs[0]] + tail =~= rs);
    }
}

proof fn lemma_consts_rt(cs: Seq<Constant>, rest: Seq<u8>)
    requires
        forall|k: int| 0 <= k < cs.len()
            ==> in_size_range((#[trigger] cs[k]).value, cs[k].size),
    ensures
        spec_parse_consts(spec_consts_bytes(cs) + rest, cs.len())
            == Ok::<(Seq<Constant>, Seq<u8>), ObjectError>((cs, rest)),
    decreases cs.len(),
{
    if cs.len() == 0 {
        assert(spec_consts_bytes(cs) + rest =~= rest);
        assert(cs =~= Seq::<Constant>::empty());
    } else {
        let tail = cs.drop_first();
        assert(spec_consts_bytes(cs) + rest
            =~= spec_const_bytes(cs[0]) + (spec_consts_bytes(tail) + rest));
        lemma_const_rt(cs[0], spec_consts_bytes(tail) + rest);
        lemma_consts_rt(tail, rest);
        assert(seq![cs[0]] + tail =~= cs);
    }
}

proof fn lemma_instr_rt(i: InstrView, rest: Seq<u8>)
    requires
        instr_wf(i),
    ensures
        spec_parse_instr(spec_instr_bytes(i) + rest)
            == Ok::<(InstrView, Seq<u8>), ObjectError>((i, rest)),
{
    let rc = i.references.len() as u8;
    let cc = i.constants.len() as u8;
    let after_counts = spec_refs_bytes(i.references) + (spec_consts_bytes(i.constants) + rest);
    let b = spec_instr_bytes(i) + rest;
    assert(b =~= spec_u16_to_le_bytes(i.opcode)
        + (seq![rc] + (seq![cc] + after_counts)));
    lemma_take16_rt(i.opcode, seq![rc] + (seq![cc] + after_counts));
    lemma_take8_rt(rc, seq![cc] + after_counts);
    lemma_take8_rt(cc, after_counts);
    lemma_refs_rt(i.references, spec_consts_bytes(i.constants) + rest);
    lemma_consts_rt(i.constants, rest);
}

proof fn lemma_label_rt(l: LabelView, rest: Seq<u8>)
    requires
        name_wf(l.name),
    ensures
        spec_parse_label(spec_label_bytes(l) + rest)
            == Ok::<(LabelView, Seq<u8>), ObjectError>((l, rest)),
{
    let b = spec_label_bytes(l) + rest;
    assert(b =~= spec_u64_to_le_bytes(l.ptr) + (spec_name_bytes(l.name) + rest));
    lemma_take64_rt(l.ptr, spec_name_bytes(l.name) + rest);
    lemma_name_rt(l.name, rest);
}

proof fn lemma_labels_rt(ls: Seq<LabelView>, acc: Seq<LabelView>, rest: Seq<u8>)
    requires
        forall|k: int| 0 <= k < ls.len() ==> name_wf(#[trigger] ls[k].name),
        forall|k1: int, k2: int|
            0 <= k1 < (acc + ls).len() && 0 <= k2 < (acc + ls).len() && k1 != k2
                ==> (acc + ls)[k1].name != (acc + ls)[k2].name,
    ensures
        spec_parse_labels(spec_labels_bytes(ls) + rest, ls.len(), acc)
            == Ok::<(Seq<LabelView>, Seq<u8>), ObjectError>((acc + ls, rest)),
    decreases ls.len(),
{
    if ls.len() == 0 {
        assert(spec_labels_bytes(ls) + rest =~= rest);
        assert(acc + ls =~= acc);
    } else {
        let tail = ls.drop_first();
        assert(spec_labels_bytes(ls) + rest
            =~= spec_label_bytes(ls[0]) + (spec_labels_bytes(tail) + rest));
        lemma_label_rt(ls[0], spec_labels_bytes(tail) + rest);
        assert(!label_name_taken(acc, ls[0].name)) by {
            if label_name_taken(acc, ls[0].name) {
                let k = choose|k: int| 0 <= k < acc.len() && acc[k].name == ls[0].name;
                assert((acc + ls)[k].name == (acc + ls)[acc.len() as int].name);
            }
        }
        assert(acc.push(ls[0]) + tail =~= acc + ls);
        lemma_labels_rt(tail, acc.push(ls[0]), rest);
    }
}

proof fn lemma_unit_rt(u: UnitView, rest: Seq<u8>)
    requires
        unit_wf(u),
    ensures
        spec_parse_unit(spec_unit_bytes(u) + rest)
            == Ok::<(UnitView, Seq<u8>), ObjectError>((u, rest)),
{
    let b = spec_unit_bytes(u) + rest;
    match u.constant {
        Some(c) => {
            let sz = c.size.spec_size() as u8;
            assert(b =~= seq![0u8]
                + (seq![sz] + (spec_u64_to_le_bytes(c.value as u64) + rest)));
            lemma_take8_rt(0u8, seq![sz] + (spec_u64_to_le_bytes(c.value as u64) + rest));
            lemma_take8_rt(sz, spec_u64_to_le_bytes(c.value as u64) + rest);
            assert(ConstantSize::spec_from_u8(sz) == Some(c.size));
            lemma_take64_rt(c.value as u64, rest);
            let v = c.value;
            assert((v as u64) as i64 == v) by (bit_vector);
        },
        None => {
            let r = u.reference->Some_0;
            let sz = r.size.spec_size() as u8;
            assert(b =~= seq![1u8] + (seq![sz] + (spec_name_bytes(r.rf) + rest)));
            lemma_take8_rt(1u8, seq![sz] + (spec_name_bytes(r.rf) + rest));
            lemma_take8_rt(sz, spec_name_bytes(r.rf) + rest);
            assert(ConstantSize::spec_from_u8(sz) == Some(r.size));
            lemma_name_rt(r.rf, rest);
        },
    }
}

#[verifier::rlimit(100)]
proof fn lemma_instrs_rt(is: Seq<InstrView>, rest: Seq<u8>)
    requires
        forall|k: int| 0 <= k < is.len() ==> instr_wf(#[trigger] is[k]),
    ensures
        spec_parse_instrs(spec_instrs_bytes(is) + rest, is.len())
            == Ok::<(Seq<InstrView>, Seq<u8>), ObjectError>((is, rest)),
    decreases is.len(),
{
    if is.len() == 0 {
        assert(spec_instrs_bytes(is) + rest =~= rest);
        assert(is =~= Seq::<InstrView>::empty());
    } else {
        let tail = is.drop_first();
        assert(spec_instrs_bytes(is) + rest
            =~= spec_instr_bytes(is[0]) + (spec_instrs_bytes(tail) + rest));
        lemma_instr_rt(is[0], spec_instrs_bytes(tail) + rest);
        lemma_instrs_rt(tail, rest);
        assert(seq![is[0]] + tail =~= is);
    }
}

proof fn lemma_units_rt(us: Seq<UnitView>, rest: Seq<u8>)
    requires
        forall|k: int| 0 <= k < us.len() ==> unit_wf(#[trigger] us[k]),
    ensures
        spec_parse_units(spec_units_bytes(us) + rest, us.len())
            == Ok::<(Seq<UnitView>, Seq<u8>), ObjectError>((us, rest)),
    decreases us.len(),
{
    if us.len() == 0 {
        assert(spec_units_bytes(us) + rest =~= rest);
        assert(us =~= Seq::<UnitView>::empty());
    } else {
        let tail = us.drop_first();
        assert(spec_units_bytes(us) + rest
            =~= spec_unit_bytes(us[0]) + (spec_units_bytes(tail) + rest));
        lemma_unit_rt(us[0], spec_units_bytes(tail) + rest);
        lemma_units_rt(tail, rest);
        assert(seq![us[0]] + tail =~= us);
    }
}

#[verifier::rlimit(100)]
proof fn lemma_section_rt(s: SectionView, rest: Seq<u8>)
    requires
        section_wf(s),
        s.instructions.len() <= u64::MAX,
        s.labels.len() <= u64::MAX,
        s.binary_data.len() <= u64::MAX,
    ensures
        spec_parse_section(spec_section_bytes(s) + rest)
            == Ok::<(SectionView, Seq<u8>), ObjectError>((s, rest)),
{
    let ic = s.instructions.len() as u64;
    let lc = s.labels.len() as u64;
    let bc = s.binary_data.len() as u64;
    let t_units = spec_units_bytes(s.binary_data) + rest;
    let t_instrs = spec_instrs_bytes(s.instructions) + t_units;
    let t_labels = spec_labels_bytes(s.labels) + t_instrs;
    let t_name = spec_name_bytes(s.name) + t_labels;
    let t_bc = spec_u64_to_le_bytes(bc) + t_name;
    let t_lc = spec_u64_to_le_bytes(lc) + t_bc;
    let b = spec_section_bytes(s) + rest;
    assert(b =~= spec_u64_to_le_bytes(ic) + t_lc);
    lemma_take64_rt(ic, t_lc);
    lemma_take64_rt(lc, t_bc);
    lemma_take64_rt(bc, t_name);
    lemma_name_rt(s.name, t_labels);
    assert(Seq::<LabelView>::empty() + s.labels =~= s.labels);
    lemma_labels_rt(s.labels, Seq::empty(), t_instrs);
    lemma_instrs_rt(s.instructions, t_units);
    lemma_units_rt(s.binary_data, rest);
}

proof fn lemma_header_rt(h: ObjectFormatHeader, rest: Seq<u8>)
    requires
        h.magic == MAGIC_FORMAT_NUMBER,
    ensures
        spec_parse_header(spec_header_bytes(h) + rest)
            == Ok::<(ObjectFormatHeader, Seq<u8>), ObjectError>((h, rest)),
{
    let t_v = spec_u32_to_le_bytes(h.version) + rest;
    let t_l = spec_u64_to_le_bytes(h.sections_length) + t_v;
    let b = spec_header_bytes(h) + rest;
    assert(b =~= spec_u64_to_le_bytes(h.magic) + t_l);
    lemma_take64_rt(h.magic, t_l);
    lemma_take64_rt(h.sections_length, t_v);
    lemma_take32_rt(h.version, rest);
}

#[verifier::spinoff_prover]
#[verifier::rlimit(100)]
proof fn lemma_sections_rt(ss: Seq<SectionView>, rest: Seq<u8>)
    requires
        forall|k: int| 0 <= k < ss.len() ==> section_wf(#[trigger] ss[k]),
        forall|k: int| 0 <= k < ss.len()
            ==> (#[trigger] ss[k]).instructions.len() <= u64::MAX
                && ss[k].labels.len() <= u64::MAX && ss[k].binary_data.len() <= u64::MAX,
    ensures
        spec_parse_sections(spec_sections_bytes(ss) + rest, ss.len())
            == Ok::<(Seq<SectionView>, Seq<u8>), ObjectError>((ss, rest)),
    decreases ss.len(),
{
    if ss.len() == 0 {
        assert(spec_sections_bytes(ss) + rest =~= rest);
        assert(ss =~= Seq::<SectionView>::empty());
    } else {
        let tail = ss.drop_first();
        assert(spec_sections_bytes(ss) + rest
            =~= spec_section_bytes(ss[0]) + (spec_sections_bytes(tail) + rest));
        lemma_section_rt(ss[0], spec_sections_bytes(tail) + rest);
        lemma_sections_rt(tail, rest);
        assert(seq![ss[0]] + tail =~= ss);
    }
}

/// Reading a well-formed object's bytes restores its header and sections
/// exactly.
pub proof fn lemma_object_roundtrip(h: ObjectFormatHeader, ss: Seq<SectionView>)
    requires
        h.magic == MAGIC_FORMAT_NUMBER,
        h.sections_length == ss.len(),
        forall|k: int| 0 <= k < ss.len() ==> section_wf(#[trigger] ss[k]),
        forall|k: int| 0 <= k < ss.len()
            ==> (#[trigger] ss[k]).instructions.len() <= u64::MAX
                && ss[k].labels.len() <= u64::MAX && ss[k].binary_data.len() <= u64::MAX,
    ensures
        spec_parse_object(spec_object_bytes(h, ss))
            == Ok::<(ObjectFormatHeader, Seq<SectionView>), ObjectError>((h, ss)),
{
    let rest = Seq::<u8>::empty();
    let b = spec_object_bytes(h, ss);
    assert(b =~= spec_header_bytes(h) + (spec_sections_bytes(ss) + rest));
    lemma_header_rt(h, spec_sections_bytes(ss) + rest);
    assert(spec_sections_bytes(ss) + rest =~= spec_sections_bytes(ss));
    lemma_sections_rt(ss, rest);
}

// ---------------------------------------------------------------------------
// Writing.

fn write_name(binary: &mut Vec<u8>, name: &[char])
    ensures
        final(binary)@ == old(binary)@ + spec_name_bytes(name@),
{
    let ghost pre = binary@;
    let mut i: usize = 0;
    while i < name.len()
        invariant
            i <= name@.len(),
            binary@ =~= pre + Seq::new(i as nat, |k: int| (name@[k] as u32) as u8),
        decreases name@.len() - i,
    {
        binary.push((name[i] as u32) as u8);
        i = i + 1;
        proof {
            assert(binary@ =~= pre + Seq::new(i as nat, |k: int| (name@[k] as u32) as u8));
        }
    }
    binary.push(0);
    proof {
        assert(binary@ =~= pre + spec_name_bytes(name@));
    }
}

pub(crate) fn write_value(binary: &mut Vec<u8>, value: i64, size: ConstantSize)
    ensures
        final(binary)@ == old(binary)@ + spec_value_bytes(value, size),
{
    match size {
        ConstantSize::Byte => {
            binary.push((value as i8) as u8);
            proof {
                assert(binary@ =~= old(binary)@ + spec_value_bytes(value, size));
            }
        },
        ConstantSize::Word => {
            let mut bs = u16_to_le_bytes((value as i16) as u16);
            binary.append(&mut bs);
        },
        ConstantSize::DoubleWord => {
            let mut bs = u32_to_le_bytes((value as i32) as u32);
            binary.append(&mut bs);
        },
    }
}

impl Reference {
    /// Appends this reference's wire form.
    fn write_bytes(&self, binary: &mut Vec<u8>)
        requires
            name_wf(self.rf@),
        ensures
            final(binary)@ == old(binary)@ + spec_ref_bytes(self.deep_view()),
    {
        binary.push(self.argument_pos);
        write_name(binary, self.rf.as_slice());
        proof {
            assert(binary@ =~= old(binary)@ + spec_ref_bytes(self.deep_view()));
        }
    }
}

impl Constant {
    /// Appends this constant's wire form.
    fn write_bytes(&self, binary: &mut Vec<u8>)
        ensures
            final(binary)@ == old(binary)@ + spec_const_bytes(*self),
    {
        binary.push(self.argument_pos);
        binary.push(self.size.to_u8());
        write_value(binary, self.value, self.size);
        proof {
            assert(binary@ =~= old(binary)@ + spec_const_bytes(*self));
        }
    }
}

proof fn lemma_refs_bytes_push(rs: Seq<RefView>, r: RefView)
    ensures
        spec_refs_bytes(rs.push(r)) == spec_refs_bytes(rs) + spec_ref_bytes(r),
    decreases rs.len(),
{
    if rs.len() == 0 {
        assert(rs.push(r).drop_first() =~= Seq::<RefView>::empty());
        assert(spec_refs_bytes(rs) + spec_ref_bytes(r) =~= spec_ref_bytes(r));
        assert(spec_refs_bytes(rs.push(r))
            =~= spec_ref_bytes(r) + spec_refs_bytes(Seq::empty()));
    } else {
        assert(rs.push(r).drop_first() =~= rs.drop_first().push(r));
        lemma_refs_bytes_push(rs.drop_first(), r);
        assert(spec_refs_bytes(rs.push(r)) =~= spec_refs_bytes(rs) + spec_ref_bytes(r));
    }
}

proof fn lemma_consts_bytes_push(cs: Seq<Constant>, c: Constant)
    ensures
        spec_consts_bytes(cs.push(c)) == spec_consts_bytes(cs) + spec_const_bytes(c),
    decreases cs.len(),
{
    if cs.len() == 0 {
        assert(cs.push(c).drop_first() =~= Seq::<Constant>::empty());
        assert(spec_consts_bytes(cs) + spec_const_bytes(c) =~= spec_const_bytes(c));
        assert(spec_consts_bytes(cs.push(c))
            =~= spec_const_bytes(c) + spec_consts_bytes(Seq::empty()));
    } else {
        assert(cs.push(c).drop_first() =~= cs.drop_first().push(c));
        lemma_consts_bytes_push(cs.drop_first(), c);
        assert(spec_consts_bytes(cs.push(c)) =~= spec_consts_bytes(cs) + spec_const_bytes(c));
    }
}

proof fn lemma_labels_bytes_push(ls: Seq<LabelView>, l: LabelView)
    ensures
        spec_labels_bytes(ls.push(l)) == spec_labels_bytes(ls) + spec_label_bytes(l),
    decreases ls.len(),
{
    if ls.len() == 0 {
        assert(ls.push(l).drop_first() =~= Seq::<LabelView>::empty());
        assert(spec_labels_bytes(ls) + spec_label_bytes(l) =~= spec_label_bytes(l));
        assert(spec_labels_bytes(ls.push(l))
            =~= spec_label_bytes(l) + spec_labels_bytes(Seq::empty()));
    } else {
        assert(ls.push(l).drop_first() =~= ls.drop_first().push(l));
        lemma_labels_bytes_push(ls.drop_first(), l);
        assert(spec_labels_bytes(ls.push(l)) =~= spec_labels_bytes(ls) + spec_label_bytes(l));
    }
}

proof fn lemma_instrs_bytes_push(is: Seq<InstrView>, i: InstrView)
    ensures
        spec_instrs_bytes(is.push(i)) == spec_instrs_bytes(is) + spec_instr_bytes(i),
    decreases is.len(),
{
    if is.len() == 0 {
        assert(is.push(i).drop_first() =~= Seq::<InstrView>::empty());
        assert(spec_instrs_bytes(is) + spec_instr_bytes(i) =~= spec_instr_bytes(i));
        assert(spec_instrs_bytes(is.push(i))
            =~= spec_instr_bytes(i) + spec_instrs_bytes(Seq::empty()));
    } else {
        assert(is.push(i).drop_first() =~= is.drop_first().push(i));
        lemma_instrs_bytes_push(is.drop_first(), i);
        assert(spec_instrs_bytes(is.push(i)) =~= spec_instrs_bytes(is) + spec_instr_bytes(i));
    }
}

proof fn lemma_units_bytes_push(us: Seq<UnitView>, u: UnitView)
    ensures
        spec_units_bytes(us.push(u)) == spec_units_bytes(us) + spec_unit_bytes(u),
    decreases us.len(),
{
    if us.len() == 0 {
        assert(us.push(u).drop_first() =~= Seq::<UnitView>::empty());
        assert(spec_units_bytes(us) + spec_unit_bytes(u) =~= spec_unit_bytes(u));
        assert(spec_units_bytes(us.push(u))
            =~= spec_unit_bytes(u) + spec_units_bytes(Seq::empty()));
    } else {
        assert(us.push(u).drop_first() =~= us.drop_first().push(u));
        lemma_units_bytes_push(us.drop_first(), u);
        assert(spec_units_bytes(us.push(u)) =~= spec_units_bytes(us) + spec_unit_bytes(u));
    }
}

proof fn lemma_sections_bytes_push(ss: Seq<SectionView>, s: SectionView)
    ensures
        spec_sections_bytes(ss.push(s)) == spec_sections_bytes(ss) + spec_section_bytes(s),
    decreases ss.len(),
{
    if ss.len() == 0 {
        assert(ss.push(s).drop_first() =~= Seq::<SectionView>::empty());
        assert(spec_sections_bytes(ss) + spec_section_bytes(s) =~= spec_section_bytes(s));
        assert(spec_sections_bytes(ss.push(s))
            =~= spec_section_bytes(s) + spec_sections_bytes(Seq::empty()));
    } else {
        assert(ss.push(s).drop_first() =~= ss.drop_first().push(s));
        lemma_sections_bytes_push(ss.drop_first(), s);
        assert(spec_sections_bytes(ss.push(s))
            =~= spec_sections_bytes(ss) + spec_section_bytes(s));
    }
}

impl InstructionData {
    /// Appends this instruction's wire form: opcode, the two counts, then
    /// references and constants.
    fn write_bytes(&self, binary: &mut Vec<u8>)
        requires
            instr_writable(self.deep_view()),
        ensures
            final(binary)@ == old(binary)@ + spec_instr_bytes(self.deep_view()),
    {
        let ghost pre = binary@;
        let mut bs = u16_to_le_bytes(self.opcode);
        binary.append(&mut bs);
        binary.push(self.references.len() as u8);
        binary.push(self.constants.len() as u8);
        let ghost head = binary@;
        let mut i: usize = 0;
        while i < self.references.len()
            invariant
                i <= self.references@.len(),
                instr_writable(self.deep_view()),
                binary@ =~= head + spec_refs_bytes(
                    self.references.deep_view().subrange(0, i as int)),
            decreases self.references@.len() - i,
        {
            let ghost sofar = self.references.deep_view().subrange(0, i as int);
            proof {
                assert(self.references.deep_view()[i as int]
                    == self.references@[i as int].deep_view());
                assert(name_wf(self.deep_view().references[i as int].rf));
            }
            self.references[i].write_bytes(binary);
            i = i + 1;
            proof {
                lemma_refs_bytes_push(sofar, self.references.deep_view()[i - 1]);
                assert(sofar.push(self.references.deep_view()[i - 1])
                    =~= self.references.deep_view().subrange(0, i as int));
            }
        }
        proof {
            assert(self.references.deep_view().subrange(0, self.references@.len() as int)
                =~= self.references.deep_view());
        }
        let ghost head2 = binary@;
        let mut j: usize = 0;
        while j < self.constants.len()
            invariant
                j <= self.constants@.len(),
                binary@ =~= head2 + spec_consts_bytes(self.constants@.subrange(0, j as int)),
            decreases self.constants@.len() - j,
        {
            let ghost sofar = self.constants@.subrange(0, j as int);
            let c = self.constants[j];
            c.write_bytes(binary);
            j = j + 1;
            proof {
                lemma_consts_bytes_push(sofar, self.constants@[j - 1]);
                assert(sofar.push(self.constants@[j - 1])
                    =~= self.constants@.subrange(0, j as int));
            }
        }
        proof {
            assert(self.constants@.subrange(0, self.constants@.len() as int)
                =~= self.constants@);
            assert(binary@ =~= pre + spec_instr_bytes(self.deep_view()));
        }
    }
}

impl ObjectLabelSymbol {
    /// Appends this label's wire form.
    fn write_bytes(&self, binary: &mut Vec<u8>)
        requires
            name_wf(self.name@),
        ensures
            final(binary)@ == old(binary)@ + spec_label_bytes(self.deep_view()),
    {
        let mut bs = u64_to_le_bytes(self.ptr);
        binary.append(&mut bs);
        write_name(binary, self.name.as_slice());
        proof {
            assert(binary@ =~= old(binary)@ + spec_label_bytes(self.deep_view()));
        }
    }
}

impl BinaryUnit {
    /// Appends this unit's wire form; a unit with nothing in it cannot be
    /// written.
    fn write_bytes(&self, binary: &mut Vec<u8>) -> (r: Result<(), ObjectError>)
        requires
            self.reference matches Some(rf) ==> name_wf(rf.rf@),
        ensures
            r is Ok ==> final(binary)@ == old(binary)@ + spec_unit_bytes(self.deep_view()),
            r is Ok <==> (self.constant is Some || self.reference is Some),
            r is Err ==> r->Err_0 == ObjectError::EmptyUnit && final(binary)@ == old(binary)@,
    {
        if let Some(cst) = &self.constant {
            binary.push(0);
            binary.push(cst.size.to_u8());
            let mut bs = u64_to_le_bytes(cst.value as u64);
            binary.append(&mut bs);
            proof {
                assert(binary@ =~= old(binary)@ + spec_unit_bytes(self.deep_view()));
            }
            Ok(())
        } else if let Some(reference) = &self.reference {
            binary.push(1);
            binary.push(reference.size.to_u8());
            write_name(binary, reference.rf.as_slice());
            proof {
                assert(binary@ =~= old(binary)@ + spec_unit_bytes(self.deep_view()));
            }
            Ok(())
        } else {
            Err(ObjectError::EmptyUnit)
        }
    }
}

/// A unit the writer accepts: it carries something, and a reference's
/// name fits the wire form.
pub open spec fn unit_writable(u: UnitView) -> bool {
    &&& u.constant is Some || u.reference is Some
    &&& u.reference matches Some(rf) ==> name_wf(rf.rf)
}

/// Every unit of the sequence can be written.
pub open spec fn units_writable(us: Seq<UnitView>) -> bool {
    forall|k: int| 0 <= k < us.len() ==> unit_writable(#[trigger] us[k])
}

/// An instruction the writer accepts: every reference name fits the wire
/// form.
pub open spec fn instr_writable(i: InstrView) -> bool {
    forall|k: int| 0 <= k < i.references.len() ==> name_wf((#[trigger] i.references[k]).rf)
}

/// A section the writer accepts: not both kinds of content, and every
/// name it holds fits the wire form.
pub open spec fn section_writable(s: SectionView) -> bool {
    &&& !(s.binary_data.len() != 0 && s.instructions.len() != 0)
    &&& name_wf(s.name)
    &&& forall|k: int| 0 <= k < s.labels.len() ==> name_wf((#[trigger] s.labels[k]).name)
    &&& forall|k: int| 0 <= k < s.instructions.len()
        ==> instr_writable(#[trigger] s.instructions[k])
    &&& units_writable(s.binary_data)
}

/// Whether every label name of the list fits the wire form.
fn labels_names_ok(labels: &Vec<ObjectLabelSymbol>) -> (r: bool)
    ensures
        r == forall|k: int| 0 <= k < labels.deep_view().len()
            ==> name_wf((#[trigger] labels.deep_view()[k]).name),
{
    let mut i: usize = 0;
    while i < labels.len()
        invariant
            i <= labels@.len(),
            forall|m: int| 0 <= m < i ==> name_wf((#[trigger] labels.deep_view()[m]).name),
        decreases labels@.len() - i,
    {
        proof {
            assert(labels.deep_view()[i as int] == labels@[i as int].deep_view());
        }
        if !name_ok(labels[i].name.as_slice()) {
            return false;
        }
        i = i + 1;
    }
    true
}

/// Whether every reference name of the list fits the wire form.
fn refs_names_ok(refs: &Vec<Reference>) -> (r: bool)
    ensures
        r == forall|k: int| 0 <= k < refs.deep_view().len()
            ==> name_wf((#[trigger] refs.deep_view()[k]).rf),
{
    let mut i: usize = 0;
    while i < refs.len()
        invariant
            i <= refs@.len(),
            forall|m: int| 0 <= m < i ==> name_wf((#[trigger] refs.deep_view()[m]).rf),
        decreases refs@.len() - i,
    {
        proof {
            assert(refs.deep_view()[i as int] == refs@[i as int].deep_view());
        }
        if !name_ok(refs[i].rf.as_slice()) {
            return false;
        }
        i = i + 1;
    }
    true
}

/// Whether the writer accepts every instruction of the list.
fn instrs_writable_ok(is: &Vec<InstructionData>) -> (r: bool)
    ensures
        r == forall|k: int| 0 <= k < is.deep_view().len()
            ==> instr_writable(#[trigger] is.deep_view()[k]),
{
    let mut i: usize = 0;
    while i < is.len()
        invariant
            i <= is@.len(),
            forall|m: int| 0 <= m < i ==> instr_writable(#[trigger] is.deep_view()[m]),
        decreases is@.len() - i,
    {
        let ghost iv = is.deep_view()[i as int];
        proof {
            assert(iv == is@[i as int].deep_view());
        }
        if !refs_names_ok(&is[i].references) {
            proof {
                let s = is@[i as int].references.deep_view();
                assert(iv.references == s);
                if instr_writable(iv) {
                    assert forall|k: int| 0 <= k < s.len() implies
                        name_wf((#[trigger] s[k]).rf) by {
                        assert(iv.references[k] == s[k]);
                        assert(name_wf(iv.references[k].rf));
                    }
                }
                assert(!instr_writable(iv));
            }
            return false;
        }
        i = i + 1;
    }
    true
}

/// Whether the writer accepts every unit of the list, and which refusal
/// applies when not.
fn units_check(us: &Vec<BinaryUnit>) -> (r: Result<(), ObjectError>)
    ensures
        r is Ok <==> units_writable(us.deep_view()),
        r is Err ==> (r->Err_0 == ObjectError::EmptyUnit || r->Err_0 == ObjectError::BadName),
{
    let mut i: usize = 0;
    while i < us.len()
        invariant
            i <= us@.len(),
            forall|m: int| 0 <= m < i ==> unit_writable(#[trigger] us.deep_view()[m]),
        decreases us@.len() - i,
    {
        proof {
            assert(us.deep_view()[i as int] == us@[i as int].deep_view());
        }
        let u = &us[i];
        if u.constant.is_none() && u.reference.is_none() {
            proof {
                assert(!unit_writable(us.deep_view()[i as int]));
            }
            return Err(ObjectError::EmptyUnit);
        }
        if let Some(rf) = &u.reference {
            if !name_ok(rf.rf.as_slice()) {
                proof {
                    assert(!unit_writable(us.deep_view()[i as int]));
                }
                return Err(ObjectError::BadName);
            }
        }
        i = i + 1;
    }
    Ok(())
}

impl SectionData {
    /// Appends this section's wire form: the three counts, the name, then
    /// labels, instructions and binary units.  A section holding both
    /// instructions and binary units, or any name the wire form cannot
    /// carry, is refused before anything is written.
    #[verifier::rlimit(100)]
    fn write_bytes(&self, binary: &mut Vec<u8>) -> (r: Result<(), ObjectError>)
        ensures
            r is Ok ==> final(binary)@ == old(binary)@ + spec_section_bytes(self.deep_view()),
            r is Ok <==> section_writable(self.deep_view()),
            r is Err ==> final(binary)@ == old(binary)@
                && (r->Err_0 == ObjectError::MixedSection
                    || r->Err_0 == ObjectError::BadName
                    || r->Err_0 == ObjectError::EmptyUnit),
    {
        if self.binary_data.len() != 0 && self.instructions.len() != 0 {
            return Err(ObjectError::MixedSection);
        }
        if !name_ok(self.name.as_slice()) {
            return Err(ObjectError::BadName);
        }
        if !labels_names_ok(&self.labels) {
            return Err(ObjectError::BadName);
        }
        if !instrs_writable_ok(&self.instructions) {
            return Err(ObjectError::BadName);
        }
        match units_check(&self.binary_data) {
            Ok(()) => {},
            Err(e) => {
                return Err(e);
            },
        }
        let ghost pre = binary@;
        let mut bs = u64_to_le_bytes(self.instructions.len() as u64);
        binary.append(&mut bs);
        let mut bs2 = u64_to_le_bytes(self.labels.len() as u64);
        binary.append(&mut bs2);
        let mut bs3 = u64_to_le_bytes(self.binary_data.len() as u64);
        binary.append(&mut bs3);
        write_name(binary, self.name.as_slice());
        let ghost head = binary@;
        let mut i: usize = 0;
        while i < self.labels.len()
            invariant
                i <= self.labels@.len(),
                binary@ =~= head + spec_labels_bytes(self.labels.deep_view().subrange(0, i as int)),
                forall|m: int| 0 <= m < self.labels.deep_view().len()
                    ==> name_wf((#[trigger] self.labels.deep_view()[m]).name),
            decreases self.labels@.len() - i,
        {
            let ghost sofar = self.labels.deep_view().subrange(0, i as int);
            proof {
                assert(self.labels.deep_view()[i as int] == self.labels@[i as int].deep_view());
            }
            self.labels[i].write_bytes(binary);
            i = i + 1;
            proof {
                lemma_labels_bytes_push(sofar, self.labels.deep_view()[i - 1]);
                assert(sofar.push(self.labels.deep_view()[i - 1])
                    =~= self.labels.deep_view().subrange(0, i as int));
            }
        }
        proof {
            assert(self.labels.deep_view().subrange(0, self.labels@.len() as int)
                =~= self.labels.deep_view());
        }
        let ghost head2 = binary@;
        let mut j: usize = 0;
        while j < self.instructions.len()
            invariant
                j <= self.instructions@.len(),
                binary@ =~= head2 + spec_instrs_bytes(
                    self.instructions.deep_view().subrange(0, j as int)),
                forall|m: int| 0 <= m < self.instructions.deep_view().len()
                    ==> instr_writable(#[trigger] self.instructions.deep_view()[m]),
            decreases self.instructions@.len() - j,
        {
            let ghost sofar = self.instructions.deep_view().subrange(0, j as int);
            proof {
                assert(self.instructions.deep_view()[j as int]
                    == self.instructions@[j as int].deep_view());
            }
            self.instructions[j].write_bytes(binary);
            j = j + 1;
            proof {
                lemma_instrs_bytes_push(sofar, self.instructions.deep_view()[j - 1]);
                assert(sofar.push(self.instructions.deep_view()[j - 1])
                    =~= self.instructions.deep_view().subrange(0, j as int));
            }
        }
        proof {
            assert(self.instructions.deep_view().subrange(0, self.instructions@.len() as int)
                =~= self.instructions.deep_view());
        }
        let ghost head3 = binary@;
        let mut k: usize = 0;
        while k < self.binary_data.len()
            invariant
                k <= self.binary_data@.len(),
                binary@ =~= head3 + spec_units_bytes(
                    self.binary_data.deep_view().subrange(0, k as int)),
                units_writable(self.binary_data.deep_view()),
            decreases self.binary_data@.len() - k,
        {
            let ghost sofar = self.binary_data.deep_view().subrange(0, k as int);
            proof {
                assert(self.binary_data.deep_view()[k as int]
                    == self.binary_data@[k as int].deep_view());
                assert(unit_writable(self.binary_data.deep_view()[k as int]));
            }
            match self.binary_data[k].write_bytes(binary) {
                Ok(()) => {},
                Err(e) => {
                    proof {
                        assert(false);
                    }
                    return Err(e);
                },
            }
            k = k + 1;
            proof {
                lemma_units_bytes_push(sofar, self.binary_data.deep_view()[k - 1]);
                assert(sofar.push(self.binary_data.deep_view()[k - 1])
                    =~= self.binary_data.deep_view().subrange(0, k as int));
            }
        }
        proof {
            assert(self.binary_data.deep_view().subrange(0, self.binary_data@.len() as int)
                =~= self.binary_data.deep_view());
            assert(binary@ =~= pre + spec_section_bytes(self.deep_view()));
        }
        Ok(())
    }
}

fn write_header(h: &ObjectFormatHeader, binary: &mut Vec<u8>)
    ensures
        final(binary)@ == old(binary)@ + spec_header_bytes(*h),
{
    let mut bs = u64_to_le_bytes(h.magic);
    binary.append(&mut bs);
    let mut bs2 = u64_to_le_bytes(h.sections_length);
    binary.append(&mut bs2);
    let mut bs3 = u32_to_le_bytes(h.version);
    binary.append(&mut bs3);
    proof {
        assert(binary@ =~= old(binary)@ + spec_header_bytes(*h));
    }
}

// ---------------------------------------------------------------------------
// Reading.

fn read_u8(b: &[u8], p: usize) -> (r: Result<(u8, usize), ObjectError>)
    requires
        p <= b@.len(),
    ensures
        match spec_take8(b@.skip(p as int)) {
            Ok((x, rem)) => r is Ok && r->Ok_0.0 == x && p < r->Ok_0.1 <= b@.len()
                && b@.skip(r->Ok_0.1 as int) == rem,
            Err(e) => r is Err && r->Err_0 == e,
        },
{
    if p < b.len() {
        proof {
            assert(b@.skip(p as int)[0] == b@[p as int]);
            assert(b@.skip(p as int).skip(1) =~= b@.skip(p as int + 1));
        }
        Ok((b[p], p + 1))
    } else {
        proof {
            assert(b@.skip(p as int).len() == 0);
        }
        Err(ObjectError::Truncated)
    }
}

fn read_u16(b: &[u8], p: usize) -> (r: Result<(u16, usize), ObjectError>)
    requires
        p <= b@.len(),
    ensures
        match spec_take16(b@.skip(p as int)) {
            Ok((x, rem)) => r is Ok && r->Ok_0.0 == x && p < r->Ok_0.1 <= b@.len()
                && b@.skip(r->Ok_0.1 as int) == rem,
            Err(e) => r is Err && r->Err_0 == e,
        },
{
    if b.len() - p >= 2 {
        let x = u16_from_le_bytes(vstd::slice::slice_subrange(b, p, p + 2));
        proof {
            assert(b@.subrange(p as int, p + 2) =~= b@.skip(p as int).subrange(0, 2));
            assert(b@.skip(p as int).skip(2) =~= b@.skip(p as int + 2));
        }
        Ok((x, p + 2))
    } else {
        Err(ObjectError::Truncated)
    }
}

fn read_u32(b: &[u8], p: usize) -> (r: Result<(u32, usize), ObjectError>)
    requires
        p <= b@.len(),
    ensures
        match spec_take32(b@.skip(p as int)) {
            Ok((x, rem)) => r is Ok && r->Ok_0.0 == x && p < r->Ok_0.1 <= b@.len()
                && b@.skip(r->Ok_0.1 as int) == rem,
            Err(e) => r is Err && r->Err_0 == e,
        },
{
    if b.len() - p >= 4 {
        let x = u32_from_le_bytes(vstd::slice::slice_subrange(b, p, p + 4));
        proof {
            assert(b@.subrange(p as int, p + 4) =~= b@.skip(p as int).subrange(0, 4));
            assert(b@.skip(p as int).skip(4) =~= b@.skip(p as int + 4));
        }
        Ok((x, p + 4))
    } else {
        Err(ObjectError::Truncated)
    }
}

fn read_u64(b: &[u8], p: usize) -> (r: Result<(u64, usize), ObjectError>)
    requires
        p <= b@.len(),
    ensures
        match spec_take64(b@.skip(p as int)) {
            Ok((x, rem)) => r is Ok && r->Ok_0.0 == x && p < r->Ok_0.1 <= b@.len()
                && b@.skip(r->Ok_0.1 as int) == rem,
            Err(e) => r is Err && r->Err_0 == e,
        },
{
    if b.len() - p >= 8 {
        let x = u64_from_le_bytes(vstd::slice::slice_subrange(b, p, p + 8));
        proof {
            assert(b@.subrange(p as int, p + 8) =~= b@.skip(p as int).subrange(0, 8));
            assert(b@.skip(p as int).skip(8) =~= b@.skip(p as int + 8));
        }
        Ok((x, p + 8))
    } else {
        Err(ObjectError::Truncated)
    }
}

#[verifier::loop_isolation(false)]
fn read_name(b: &[u8], p: usize) -> (r: Result<(Vec<char>, usize), ObjectError>)
    requires
        p <= b@.len(),
    ensures
        match spec_take_name(b@.skip(p as int)) {
            Ok((nm, rem)) => r is Ok && r->Ok_0.0@ == nm && p < r->Ok_0.1 <= b@.len()
                && b@.skip(r->Ok_0.1 as int) == rem,
            Err(e) => r is Err && r->Err_0 == e,
        },
{
    let ghost s = b@.skip(p as int);
    let mut out: Vec<char> = Vec::new();
    let mut i: usize = p;
    proof {
        assert(out@ =~= Seq::<char>::empty());
    }
    while i < b.len() && b[i] != 0
        invariant
            p <= i <= b@.len(),
            spec_nz_len(s, 0) == spec_nz_len(s, (i - p) as nat),
            forall|j: int| 0 <= j < i - p ==> s[j] != 0,
            out@ =~= Seq::new((i - p) as nat, |j: int| (s[j] as u32) as char),
        decreases b@.len() - i,
    {
        proof {
            assert(s[(i - p) as int] == b@[i as int]);
        }
        let c = b[i] as char;
        proof {
            vstd::utf8::char_u32_cast(c, b@[i as int] as u32);
            assert(c == (s[(i - p) as int] as u32) as char);
        }
        out.push(c);
        i = i + 1;
        proof {
            assert(out@ =~= Seq::new((i - p) as nat, |j: int| (s[j] as u32) as char));
        }
    }
    if i >= b.len() {
        proof {
            assert(spec_nz_len(s, (i - p) as nat) == s.len());
        }
        return Err(ObjectError::Truncated);
    }
    proof {
        assert(s[(i - p) as int] == b@[i as int]);
        assert(spec_nz_len(s, (i - p) as nat) == (i - p) as nat);
        assert(out@ =~= Seq::new(spec_nz_len(s, 0), |j: int| (s[j] as u32) as char));
        assert(b@.skip(i as int + 1) =~= s.skip((i - p) as int + 1));
    }
    Ok((out, i + 1))
}

fn read_value(b: &[u8], p: usize, size: ConstantSize) -> (r: Result<(i64, usize), ObjectError>)
    requires
        p <= b@.len(),
    ensures
        match spec_parse_value(b@.skip(p as int), size) {
            Ok((v, rem)) => r is Ok && r->Ok_0.0 == v && p < r->Ok_0.1 <= b@.len()
                && b@.skip(r->Ok_0.1 as int) == rem,
            Err(e) => r is Err && r->Err_0 == e,
        },
{
    match size {
        ConstantSize::Byte => {
            let (x, p1) = read_u8(b, p)?;
            Ok(((x as i8) as i64, p1))
        },
        ConstantSize::Word => {
            let (x, p1) = read_u16(b, p)?;
            Ok(((x as i16) as i64, p1))
        },
        ConstantSize::DoubleWord => {
            let (x, p1) = read_u32(b, p)?;
            Ok(((x as i32) as i64, p1))
        },
    }
}

impl Reference {
    fn from_bytes(b: &[u8], p: usize) -> (r: Result<(Reference, usize), ObjectError>)
        requires
            p <= b@.len(),
        ensures
            match spec_parse_reference(b@.skip(p as int)) {
                Ok((rv, rem)) => r is Ok && r->Ok_0.0.deep_view() == rv
                    && p < r->Ok_0.1 <= b@.len() && b@.skip(r->Ok_0.1 as int) == rem,
                Err(e) => r is Err && r->Err_0 == e,
            },
    {
        let (pos, p1) = read_u8(b, p)?;
        let (nm, p2) = read_name(b, p1)?;
        Ok((Reference { argument_pos: pos, rf: nm }, p2))
    }
}

impl Constant {
    fn from_bytes(b: &[u8], p: usize) -> (r: Result<(Constant, usize), ObjectError>)
        requires
            p <= b@.len(),
        ensures
            match spec_parse_constant(b@.skip(p as int)) {
                Ok((c, rem)) => r is Ok && r->Ok_0.0 == c && p < r->Ok_0.1 <= b@.len()
                    && b@.skip(r->Ok_0.1 as int) == rem,
                Err(e) => r is Err && r->Err_0 == e,
            },
    {
        let (pos, p1) = read_u8(b, p)?;
        let (sz, p2) = read_u8(b, p1)?;
        let size = match ConstantSize::from_u8(sz) {
            Some(s) => s,
            None => {
                return Err(ObjectError::BadSize);
            },
        };
        let (v, p3) = read_value(b, p2, size)?;
        Ok((Constant { argument_pos: pos, size, value: v }, p3))
    }
}

fn read_refs(b: &[u8], p: usize, n: u8) -> (r: Result<(Vec<Reference>, usize), ObjectError>)
    requires
        p <= b@.len(),
    ensures
        match spec_parse_refs(b@.skip(p as int), n as nat) {
            Ok((rs, rem)) => r is Ok && r->Ok_0.0.deep_view() == rs
                && p <= r->Ok_0.1 <= b@.len() && b@.skip(r->Ok_0.1 as int) == rem,
            Err(e) => r is Err && r->Err_0 == e,
        },
    decreases n,
{
    if n == 0 {
        let out: Vec<Reference> = Vec::new();
        proof {
            assert(out.deep_view() =~= Seq::<RefView>::empty());
        }
        return Ok((out, p));
    }
    let (first, p1) = Reference::from_bytes(b, p)?;
    let ghost firstv = first.deep_view();
    let (mut rest, p2) = read_refs(b, p1, n - 1)?;
    let ghost restv = rest.deep_view();
    rest.insert(0, first);
    proof {
        assert(rest.deep_view() =~= seq![firstv] + restv);
    }
    Ok((rest, p2))
}

fn read_consts(b: &[u8], p: usize, n: u8) -> (r: Result<(Vec<Constant>, usize), ObjectError>)
    requires
        p <= b@.len(),
    ensures
        match spec_parse_consts(b@.skip(p as int), n as nat) {
            Ok((cs, rem)) => r is Ok && r->Ok_0.0@ == cs && p <= r->Ok_0.1 <= b@.len()
                && b@.skip(r->Ok_0.1 as int) == rem,
            Err(e) => r is Err && r->Err_0 == e,
        },
    decreases n,
{
    if n == 0 {
        let out: Vec<Constant> = Vec::new();
        proof {
            assert(out@ =~= Seq::<Constant>::empty());
        }
        return Ok((out, p));
    }
    let (first, p1) = Constant::from_bytes(b, p)?;
    let (mut rest, p2) = read_consts(b, p1, n - 1)?;
    let ghost restv = rest@;
    rest.insert(0, first);
    proof {
        assert(rest@ =~= seq![first] + restv);
    }
    Ok((rest, p2))
}

/// Whether any of the instruction's constants sits at the given position.
fn const_pos_taken(constants: &Vec<Constant>, pos: u8) -> (r: bool)
    ensures
        r == exists|k: int| 0 <= k < constants@.len()
            && (#[trigger] constants@[k]).argument_pos == pos,
{
    let mut k: usize = 0;
    while k < constants.len()
        invariant
            k <= constants@.len(),
            forall|m: int| 0 <= m < k ==> (#[trigger] constants@[m]).argument_pos != pos,
        decreases constants@.len() - k,
    {
        if constants[k].argument_pos == pos {
            return true;
        }
        k = k + 1;
    }
    false
}

impl InstructionData {
    #[verifier::loop_isolation(false)]
    fn from_bytes(b: &[u8], p: usize) -> (r: Result<(InstructionData, usize), ObjectError>)
        requires
            p <= b@.len(),
        ensures
            match spec_parse_instr(b@.skip(p as int)) {
                Ok((iv, rem)) => r is Ok && r->Ok_0.0.deep_view() == iv
                    && p < r->Ok_0.1 <= b@.len() && b@.skip(r->Ok_0.1 as int) == rem,
                Err(e) => r is Err && r->Err_0 == e,
            },
    {
        let (opcode, p1) = read_u16(b, p)?;
        let (rc, p2) = read_u8(b, p1)?;
        let (cc, p3) = read_u8(b, p2)?;
        let (references, p4) = read_refs(b, p3, rc)?;
        let (constants, p5) = read_consts(b, p4, cc)?;
        let me = InstructionData { opcode, references, constants };
        let ghost iv = me.deep_view();
        let mut k: usize = 0;
        while k < me.references.len()
            invariant
                k <= me.references@.len(),
                forall|m: int| 0 <= m < k
                    ==> !const_at(iv, (#[trigger] iv.references[m]).argument_pos),
                iv == me.deep_view(),
            decreases me.references@.len() - k,
        {
            if const_pos_taken(&me.constants, me.references[k].argument_pos) {
                proof {
                    let pos = iv.references[k as int].argument_pos;
                    assert(ref_at(iv, pos));
                    assert(const_at(iv, pos));
                    assert(!instr_disjoint(iv));
                }
                return Err(ObjectError::Overlap);
            }
            k = k + 1;
        }
        proof {
            assert forall|pos: u8| !(#[trigger] ref_at(iv, pos) && const_at(iv, pos)) by {
                if ref_at(iv, pos) {
                    let m = choose|m: int|
                        0 <= m < iv.references.len() && iv.references[m].argument_pos == pos;
                    assert(!const_at(iv, iv.references[m].argument_pos));
                }
            }
            assert(instr_disjoint(iv));
        }
        Ok((me, p5))
    }
}

impl ObjectLabelSymbol {
    fn from_bytes(b: &[u8], p: usize) -> (r: Result<(ObjectLabelSymbol, usize), ObjectError>)
        requires
            p <= b@.len(),
        ensures
            match spec_parse_label(b@.skip(p as int)) {
                Ok((lv, rem)) => r is Ok && r->Ok_0.0.deep_view() == lv
                    && p < r->Ok_0.1 <= b@.len() && b@.skip(r->Ok_0.1 as int) == rem,
                Err(e) => r is Err && r->Err_0 == e,
            },
    {
        let (ptr, p1) = read_u64(b, p)?;
        let (nm, p2) = read_name(b, p1)?;
        Ok((ObjectLabelSymbol { name: nm, ptr }, p2))
    }
}

/// Whether a label list already holds a name.
pub fn labels_contain(ls: &Vec<ObjectLabelSymbol>, name: &[char]) -> (r: bool)
    ensures
        r == label_name_taken(ls.deep_view(), name@),
{
    let mut k: usize = 0;
    while k < ls.len()
        invariant
            k <= ls@.len(),
            forall|m: int| 0 <= m < k ==> (#[trigger] ls.deep_view()[m]).name != name@,
        decreases ls@.len() - k,
    {
        if crate::text::eq_chars(ls[k].name.as_slice(), name) {
            proof {
                assert(ls.deep_view()[k as int].name == name@);
            }
            return true;
        }
        k = k + 1;
    }
    proof {
        if label_name_taken(ls.deep_view(), name@) {
            let m = choose|m: int|
                0 <= m < ls.deep_view().len() && ls.deep_view()[m].name == name@;
        }
    }
    false
}

fn read_labels(b: &[u8], p: usize, n: u64, acc: Vec<ObjectLabelSymbol>) -> (r: Result<
    (Vec<ObjectLabelSymbol>, usize),
    ObjectError,
>)
    requires
        p <= b@.len(),
    ensures
        match spec_parse_labels(b@.skip(p as int), n as nat, acc.deep_view()) {
            Ok((ls, rem)) => r is Ok && r->Ok_0.0.deep_view() == ls
                && p <= r->Ok_0.1 <= b@.len() && b@.skip(r->Ok_0.1 as int) == rem,
            Err(e) => r is Err && r->Err_0 == e,
        },
    decreases n,
{
    if n == 0 {
        return Ok((acc, p));
    }
    let (l, p1) = ObjectLabelSymbol::from_bytes(b, p)?;
    if labels_contain(&acc, l.name.as_slice()) {
        return Err(ObjectError::DuplicateLabel);
    }
    let ghost lv = l.deep_view();
    let ghost accv = acc.deep_view();
    let mut acc2 = acc;
    acc2.push(l);
    proof {
        assert(acc2.deep_view() =~= accv.push(lv));
    }
    read_labels(b, p1, n - 1, acc2)
}

impl BinaryUnit {
    fn from_bytes(b: &[u8], p: usize) -> (r: Result<(BinaryUnit, usize), ObjectError>)
        requires
            p <= b@.len(),
        ensures
            match spec_parse_unit(b@.skip(p as int)) {
                Ok((uv, rem)) => r is Ok && r->Ok_0.0.deep_view() == uv
                    && p < r->Ok_0.1 <= b@.len() && b@.skip(r->Ok_0.1 as int) == rem,
                Err(e) => r is Err && r->Err_0 == e,
            },
    {
        let (tag, p1) = read_u8(b, p)?;
        if tag == 0 {
            let (sz, p2) = read_u8(b, p1)?;
            let size = match ConstantSize::from_u8(sz) {
                Some(s) => s,
                None => {
                    return Err(ObjectError::BadSize);
                },
            };
            let (v, p3) = read_u64(b, p2)?;
            Ok((BinaryUnit {
                reference: None,
                constant: Some(BinaryConstant { size, value: v as i64 }),
            }, p3))
        } else if tag == 1 {
            let (sz, p2) = read_u8(b, p1)?;
            let size = match ConstantSize::from_u8(sz) {
                Some(s) => s,
                None => {
                    return Err(ObjectError::BadSize);
                },
            };
            let (nm, p3) = read_name(b, p2)?;
            Ok((BinaryUnit { reference: Some(BinaryReference { rf: nm, size }), constant: None },
                p3))
        } else {
            Err(ObjectError::BadUnitTag)
        }
    }
}

fn read_instrs(b: &[u8], p: usize, n: u64) -> (r: Result<
    (Vec<InstructionData>, usize),
    ObjectError,
>)
    requires
        p <= b@.len(),
    ensures
        match spec_parse_instrs(b@.skip(p as int), n as nat) {
            Ok((is, rem)) => r is Ok && r->Ok_0.0.deep_view() == is
                && p <= r->Ok_0.1 <= b@.len() && b@.skip(r->Ok_0.1 as int) == rem,
            Err(e) => r is Err && r->Err_0 == e,
        },
    decreases n,
{
    if n == 0 {
        let out: Vec<InstructionData> = Vec::new();
        proof {
            assert(out.deep_view() =~= Seq::<InstrView>::empty());
        }
        return Ok((out, p));
    }
    let (first, p1) = InstructionData::from_bytes(b, p)?;
    let ghost firstv = first.deep_view();
    let (mut rest, p2) = read_instrs(b, p1, n - 1)?;
    let ghost restv = rest.deep_view();
    rest.insert(0, first);
    proof {
        assert(rest.deep_view() =~= seq![firstv] + restv);
    }
    Ok((rest, p2))
}

fn read_units(b: &[u8], p: usize, n: u64) -> (r: Result<(Vec<BinaryUnit>, usize), ObjectError>)
    requires
        p <= b@.len(),
    ensures
        match spec_parse_units(b@.skip(p as int), n as nat) {
            Ok((us, rem)) => r is Ok && r->Ok_0.0.deep_view() == us
                && p <= r->Ok_0.1 <= b@.len() && b@.skip(r->Ok_0.1 as int) == rem,
            Err(e) => r is Err && r->Err_0 == e,
        },
    decreases n,
{
    if n == 0 {
        let out: Vec<BinaryUnit> = Vec::new();
        proof {
            assert(out.deep_view() =~= Seq::<UnitView>::empty());
        }
        return Ok((out, p));
    }
    let (first, p1) = BinaryUnit::from_bytes(b, p)?;
    let ghost firstv = first.deep_view();
    let (mut rest, p2) = read_units(b, p1, n - 1)?;
    let ghost restv = rest.deep_view();
    rest.insert(0, first);
    proof {
        assert(rest.deep_view() =~= seq![firstv] + restv);
    }
    Ok((rest, p2))
}

impl SectionData {
    fn from_bytes(b: &[u8], p: usize) -> (r: Result<(SectionData, usize), ObjectError>)
        requires
            p <= b@.len(),
        ensures
            match spec_parse_section(b@.skip(p as int)) {
                Ok((sv, rem)) => r is Ok && r->Ok_0.0.deep_view() == sv
                    && p < r->Ok_0.1 <= b@.len() && b@.skip(r->Ok_0.1 as int) == rem,
                Err(e) => r is Err && r->Err_0 == e,
            },
    {
        let (icount, p1) = read_u64(b, p)?;
        let (lcount, p2) = read_u64(b, p1)?;
        let (bcount, p3) = read_u64(b, p2)?;
        let (name, p4) = read_name(b, p3)?;
        let empty_acc: Vec<ObjectLabelSymbol> = Vec::new();
        proof {
            assert(empty_acc.deep_view() =~= Seq::<LabelView>::empty());
        }
        let (labels, p5) = read_labels(b, p4, lcount, empty_acc)?;
        let (instructions, p6) = read_instrs(b, p5, icount)?;
        let (binary_data, p7) = read_units(b, p6, bcount)?;
        let binary_section = binary_data.len() != 0;
        Ok((SectionData { name, instructions, labels, binary_data, binary_section }, p7))
    }
}

fn read_header(b: &[u8], p: usize) -> (r: Result<(ObjectFormatHeader, usize), ObjectError>)
    requires
        p <= b@.len(),
    ensures
        match spec_parse_header(b@.skip(p as int)) {
            Ok((h, rem)) => r is Ok && r->Ok_0.0 == h && p < r->Ok_0.1 <= b@.len()
                && b@.skip(r->Ok_0.1 as int) == rem,
            Err(e) => r is Err && r->Err_0 == e,
        },
{
    let (magic, p1) = read_u64(b, p)?;
    if magic != MAGIC_FORMAT_NUMBER {
        return Err(ObjectError::BadMagic);
    }
    let (len, p2) = read_u64(b, p1)?;
    let (version, p3) = read_u32(b, p2)?;
    Ok((ObjectFormatHeader { magic, sections_length: len, version }, p3))
}

fn read_sections(b: &[u8], p: usize, n: u64) -> (r: Result<(Vec<SectionData>, usize), ObjectError>)
    requires
        p <= b@.len(),
    ensures
        match spec_parse_sections(b@.skip(p as int), n as nat) {
            Ok((ss, rem)) => r is Ok && r->Ok_0.0.deep_view() == ss
                && p <= r->Ok_0.1 <= b@.len() && b@.skip(r->Ok_0.1 as int) == rem,
            Err(e) => r is Err && r->Err_0 == e,
        },
    decreases n,
{
    if n == 0 {
        let out: Vec<SectionData> = Vec::new();
        proof {
            assert(out.deep_view() =~= Seq::<SectionView>::empty());
        }
        return Ok((out, p));
    }
    let (first, p1) = SectionData::from_bytes(b, p)?;
    let ghost firstv = first.deep_view();
    let (mut rest, p2) = read_sections(b, p1, n - 1)?;
    let ghost restv = rest.deep_view();
    rest.insert(0, first);
    proof {
        assert(rest.deep_view() =~= seq![firstv] + restv);
    }
    Ok((rest, p2))
}

// ---------------------------------------------------------------------------
// The object as a whole.

impl SectionData {
    /// A fresh, empty section named `text`.
    pub fn new() -> (r: Self)
        ensures
            r.deep_view().name == "text"@,
            r.deep_view().instructions.len() == 0,
            r.deep_view().labels.len() == 0,
            r.deep_view().binary_data.len() == 0,
            !r.deep_view().binary_section,
    {
        let r = SectionData {
            name: crate::text::chars_of("text"),
            instructions: Vec::new(),
            labels: Vec::new(),
            binary_data: Vec::new(),
            binary_section: false,
        };
        proof {
            assert(r.deep_view().instructions =~= Seq::<InstrView>::empty());
            assert(r.deep_view().labels =~= Seq::<LabelView>::empty());
            assert(r.deep_view().binary_data =~= Seq::<UnitView>::empty());
        }
        r
    }
}

/// The first section with a name, if any.
pub open spec fn spec_find_section(ss: Seq<SectionView>, name: Seq<char>) -> Option<int>
    decreases ss.len(),
{
    if ss.len() == 0 {
        None
    } else if ss[0].name == name {
        Some(0int)
    } else {
        match spec_find_section(ss.drop_first(), name) {
            Some(k) => Some(k + 1),
            None => None,
        }
    }
}

pub proof fn lemma_find_section(ss: Seq<SectionView>, name: Seq<char>)
    ensures
        match spec_find_section(ss, name) {
            Some(k) => 0 <= k < ss.len() && ss[k].name == name
                && (forall|m: int| 0 <= m < k ==> (#[trigger] ss[m]).name != name),
            None => forall|m: int| 0 <= m < ss.len() ==> (#[trigger] ss[m]).name != name,
        },
    decreases ss.len(),
{
    if ss.len() == 0 {
    } else if ss[0].name == name {
    } else {
        lemma_find_section(ss.drop_first(), name);
        match spec_find_section(ss.drop_first(), name) {
            Some(k) => {
                assert(ss.drop_first()[k] == ss[k + 1]);
                assert forall|m: int| 0 <= m < k + 1 implies (#[trigger] ss[m]).name != name by {
                    if m > 0 {
                        assert(ss.drop_first()[m - 1] == ss[m]);
                    }
                }
            },
            None => {
                assert forall|m: int| 0 <= m < ss.len() implies (#[trigger] ss[m]).name != name by {
                    if m > 0 {
                        assert(ss.drop_first()[m - 1] == ss[m]);
                    }
                }
            },
        }
    }
}

/// Every section of the sequence can be written.
pub open spec fn sections_writable(ss: Seq<SectionView>) -> bool {
    forall|k: int| 0 <= k < ss.len() ==> section_writable(#[trigger] ss[k])
}

/// An in-memory object: its header, the sections in insertion order, the
/// table of `define` bindings, and the name of the section new content
/// goes to.
///
/// `float_values` carries host-supplied bit patterns for float literal
/// lexemes, and `data_files` host-supplied file contents for the `data`
/// directive: the verified core computes with neither floating point nor
/// files, so their values are taken as plain inputs.
#[derive(Debug)]
pub struct ObjectFormat {
    pub header: ObjectFormatHeader,
    pub defines: Vec<(Vec<char>, crate::parser::ParserNode)>,
    pub sections: Vec<SectionData>,
    pub current_section: Vec<char>,
    pub float_values: Vec<(Vec<char>, u64)>,
    pub data_files: Vec<(Vec<char>, Vec<u8>)>,
}

impl ObjectFormat {
    /// A fresh object holding one empty `text` section.
    pub fn new() -> (r: Self)
        ensures
            r.header.magic == MAGIC_FORMAT_NUMBER,
            r.header.version == CURRENT_FORMAT_VERSION,
            r.header.sections_length == 1,
            r.sections.deep_view().len() == 1,
            r.sections.deep_view()[0].name == "text"@,
            r.sections.deep_view()[0].instructions.len() == 0,
            r.sections.deep_view()[0].labels.len() == 0,
            r.sections.deep_view()[0].binary_data.len() == 0,
            r.defines@.len() == 0,
            r.current_section@ == "text"@,
            r.float_values@.len() == 0,
            r.data_files@.len() == 0,
    {
        let mut header = ObjectFormatHeader::new();
        header.sections_length = 1;
        let mut sections: Vec<SectionData> = Vec::new();
        sections.push(SectionData::new());
        ObjectFormat {
            header,
            defines: Vec::new(),
            sections,
            current_section: crate::text::chars_of("text"),
            float_values: Vec::new(),
            data_files: Vec::new(),
        }
    }

    /// An object holding nothing but an unconditional relative jump to the
    /// named entry point, to be placed ahead of user code.
    pub fn create_jumper(entrypoint: Vec<char>) -> (r: Self)
        ensures
            r.header.magic == MAGIC_FORMAT_NUMBER,
            r.header.sections_length == 1,
            r.header.version == CURRENT_FORMAT_VERSION,
            r.defines@.len() == 0,
            r.current_section@ == "text"@,
            r.sections.deep_view().len() == 1,
            r.sections.deep_view()[0].labels.len() == 0,
            r.sections.deep_view()[0].name == "text"@,
            r.sections.deep_view()[0].instructions.len() == 1,
            r.sections.deep_view()[0].instructions[0].opcode == 12,
            r.sections.deep_view()[0].instructions[0].references.len() == 1,
            r.sections.deep_view()[0].instructions[0].references[0].rf == entrypoint@,
            r.sections.deep_view()[0].instructions[0].references[0].argument_pos == 0,
            r.sections.deep_view()[0].instructions[0].constants.len() == 0,
            r.sections.deep_view()[0].binary_data.len() == 0,
    {
        let mut me = Self::new();
        let mut references: Vec<Reference> = Vec::new();
        references.push(Reference { argument_pos: 0, rf: entrypoint });
        let instr = InstructionData { opcode: 12, references, constants: Vec::new() };
        let ghost iv = instr.deep_view();
        let mut section = me.sections.remove(0);
        section.instructions.push(instr);
        me.sections.insert(0, section);
        proof {
            assert(me.sections.deep_view()[0].instructions =~= seq![iv]);
            assert(iv.references =~= seq![iv.references[0]]);
            assert(iv.constants =~= Seq::<Constant>::empty());
        }
        me
    }

    /// Supplies the bit pattern that a float literal lexeme stands for.
    pub fn register_float(&mut self, text: Vec<char>, bits: u64)
        ensures
            final(self).float_values@ == old(self).float_values@.push((text, bits)),
            final(self).header == old(self).header,
            final(self).sections == old(self).sections,
            final(self).defines == old(self).defines,
            final(self).current_section == old(self).current_section,
            final(self).data_files == old(self).data_files,
    {
        self.float_values.push((text, bits));
    }

    /// Supplies the contents of a file for the `data` directive.
    pub fn register_data_file(&mut self, path: Vec<char>, content: Vec<u8>)
        ensures
            final(self).data_files@ == old(self).data_files@.push((path, content)),
            final(self).header == old(self).header,
            final(self).sections == old(self).sections,
            final(self).defines == old(self).defines,
            final(self).current_section == old(self).current_section,
            final(self).float_values == old(self).float_values,
    {
        self.data_files.push((path, content));
    }

    /// Serializes the object: the header, then each section in order.
    /// Succeeds exactly when every section can be written.
    pub fn generate_binary(&self) -> (r: Result<Vec<u8>, ObjectError>)
        ensures
            r is Ok <==> sections_writable(self.sections.deep_view()),
            r is Ok ==> r->Ok_0@ == spec_object_bytes(self.header, self.sections.deep_view()),
    {
        let mut binary: Vec<u8> = Vec::new();
        write_header(&self.header, &mut binary);
        proof {
            assert(binary@ =~= spec_header_bytes(self.header)
                + spec_sections_bytes(self.sections.deep_view().subrange(0, 0)));
        }
        let mut i: usize = 0;
        while i < self.sections.len()
            invariant
                i <= self.sections@.len(),
                binary@ =~= spec_header_bytes(self.header)
                    + spec_sections_bytes(self.sections.deep_view().subrange(0, i as int)),
                forall|m: int| 0 <= m < i
                    ==> section_writable(#[trigger] self.sections.deep_view()[m]),
            decreases self.sections@.len() - i,
        {
            let ghost sofar = self.sections.deep_view().subrange(0, i as int);
            match self.sections[i].write_bytes(&mut binary) {
                Ok(()) => {},
                Err(e) => {
                    proof {
                        assert(!section_writable(self.sections.deep_view()[i as int]));
                    }
                    return Err(e);
                },
            }
            i = i + 1;
            proof {
                lemma_sections_bytes_push(sofar, self.sections.deep_view()[i - 1]);
                assert(sofar.push(self.sections.deep_view()[i - 1])
                    =~= self.sections.deep_view().subrange(0, i as int));
            }
        }
        proof {
            assert(self.sections.deep_view().subrange(0, self.sections@.len() as int)
                =~= self.sections.deep_view());
        }
        Ok(binary)
    }

    /// Reads an object back from its wire form.  The result is exactly
    /// what the format assigns to the bytes: the header (any version is
    /// accepted once the magic number matches) and the sections in file
    /// order.
    pub fn from_bytes(bytes: Vec<u8>) -> (r: Result<Self, ObjectError>)
        ensures
            match spec_parse_object(bytes@) {
                Ok((h, ss)) => r is Ok && r->Ok_0.header == h
                    && r->Ok_0.sections.deep_view() == ss
                    && r->Ok_0.defines@.len() == 0
                    && r->Ok_0.current_section@ == "text"@,
                Err(e) => r is Err && r->Err_0 == e,
            },
    {
        let b = bytes.as_slice();
        proof {
            assert(b@.skip(0) =~= b@);
        }
        let (header, p1) = match read_header(b, 0) {
            Ok(x) => x,
            Err(e) => {
                return Err(e);
            },
        };
        let (sections, _p2) = match read_sections(b, p1, header.sections_length) {
            Ok(x) => x,
            Err(e) => {
                return Err(e);
            },
        };
        Ok(ObjectFormat {
            header,
            defines: Vec::new(),
            sections,
            current_section: crate::text::chars_of("text"),
            float_values: Vec::new(),
            data_files: Vec::new(),
        })
    }

    /// Fetches a section by name.
    pub fn get_section(&self, name: &[char]) -> (r: Option<&SectionData>)
        ensures
            match spec_find_section(self.sections.deep_view(), name@) {
                Some(k) => r is Some && r->Some_0.deep_view() == self.sections.deep_view()[k],
                None => r is None,
            },
    {
        proof {
            lemma_find_section(self.sections.deep_view(), name@);
        }
        let mut i: usize = 0;
        while i < self.sections.len()
            invariant
                i <= self.sections@.len(),
                forall|m: int| 0 <= m < i
                    ==> (#[trigger] self.sections.deep_view()[m]).name != name@,
            decreases self.sections@.len() - i,
        {
            if crate::text::eq_chars(self.sections[i].name.as_slice(), name) {
                proof {
                    lemma_find_section_witness(self.sections.deep_view(), name@, i as nat);
                }
                return Some(&self.sections[i]);
            }
            i = i + 1;
        }
        None
    }

    /// Fetches the binding a name carries, the latest one first.
    pub fn get_define(&self, name: &[char]) -> (r: Option<&crate::parser::ParserNode>)
        ensures
            match spec_find_define(defines_view(self.defines@), name@) {
                Some(nd) => r is Some && r->Some_0.deep_view() == nd,
                None => r is None,
            },
    {
        match define_find(&self.defines, name) {
            Some(k) => Some(&self.defines[k].1),
            None => None,
        }
    }
}

proof fn lemma_find_section_witness(ss: Seq<SectionView>, name: Seq<char>, k: nat)
    requires
        k < ss.len(),
        ss[k as int].name == name,
        forall|m: int| 0 <= m < k ==> (#[trigger] ss[m]).name != name,
    ensures
        spec_find_section(ss, name) == Some(k as int),
    decreases ss.len(),
{
    if ss.len() > 0 && ss[0].name != name {
        lemma_find_section_witness(ss.drop_first(), name, (k - 1) as nat);
    }
}

/// The mathematical image of the `define` table.
pub open spec fn defines_view(
    d: Seq<(Vec<char>, crate::parser::ParserNode)>,
) -> Seq<(Seq<char>, crate::parser::NodeView)> {
    Seq::new(d.len(), |i: int| (d[i].0@, crate::parser::node_view(d[i].1)))
}

/// Finds the index of the latest binding for a name.
fn define_find(defines: &Vec<(Vec<char>, crate::parser::ParserNode)>, name: &[char]) -> (r:
    Option<usize>)
    ensures
        match spec_find_define(defines_view(defines@), name@) {
            Some(nd) => r is Some && r->Some_0 < defines@.len()
                && crate::parser::node_view(defines@[r->Some_0 as int].1) == nd,
            None => r is None,
        },
{
    let ghost dv = defines_view(defines@);
    proof {
        assert(dv.take(dv.len() as int) =~= dv);
    }
    let mut i: usize = defines.len();
    while i > 0
        invariant
            i <= defines@.len(),
            dv == defines_view(defines@),
            dv.len() == defines@.len(),
            spec_find_define(dv, name@) == spec_find_define(dv.take(i as int), name@),
        decreases i,
    {
        i = i - 1;
        proof {
            assert(dv.take(i as int + 1).last() == dv[i as int]);
            assert(dv.take(i as int + 1).drop_last() =~= dv.take(i as int));
        }
        if crate::text::eq_chars(defines[i].0.as_slice(), name) {
            return Some(i);
        }
    }
    proof {
        assert(dv.take(0).len() == 0);
    }
    None
}

/// The binding a name carries in the `define` table; a later binding
/// shadows an earlier one.
pub open spec fn spec_find_define(
    d: Seq<(Seq<char>, crate::parser::NodeView)>,
    name: Seq<char>,
) -> Option<crate::parser::NodeView>
    decreases d.len(),
{
    if d.len() == 0 {
        None
    } else if d.last().0 == name {
        Some(d.last().1)
    } else {
        spec_find_define(d.drop_last(), name)
    }
}

// ---------------------------------------------------------------------------
// The generator: lowering a syntax tree into the object model.

/// Why object generation failed; the name-carrying variants say which
/// symbol, register, directive or section was at fault.
#[derive(Debug)]
pub enum GenError {
    /// A node kind that cannot stand at this place.
    UnexpectedNode,
    /// An argument of the wrong kind for a directive.
    WrongArgument,
    /// A directive that does not exist.
    BadDirective { name: Vec<char> },
    /// A directive missing a required argument.
    MissingArgument,
    /// Defines that chase each other past the depth limit.
    LoopingDefines,
    /// A mnemonic that names no instruction.
    UnknownInstruction { name: Vec<char> },
    /// An instruction with the wrong number of arguments.
    ArgumentCount { name: Vec<char> },
    /// A register name of the wrong width or not a register at all.
    BadRegister { name: Vec<char> },
    /// The current section vanished; an internal fault.
    NoSection { name: Vec<char> },
    /// Binary data added to a section that holds instructions, or the
    /// other way around.
    MixedContent { name: Vec<char> },
    /// A label declared twice in one section.
    LabelRedefined { name: Vec<char> },
    /// Only a program node can be loaded.
    NotProgram,
    /// A float literal whose bit pattern was not supplied.
    MissingFloat { text: Vec<char> },
    /// A `data` path whose contents were not supplied.
    MissingData { path: Vec<char> },
    /// Constant arithmetic left the 64-bit range or divided by zero.
    Arithmetic,
}

/// The mathematical image of a generation failure.
pub ghost enum GenErrView {
    UnexpectedNode,
    WrongArgument,
    BadDirective { name: Seq<char> },
    MissingArgument,
    LoopingDefines,
    UnknownInstruction { name: Seq<char> },
    ArgumentCount { name: Seq<char> },
    BadRegister { name: Seq<char> },
    NoSection { name: Seq<char> },
    MixedContent { name: Seq<char> },
    LabelRedefined { name: Seq<char> },
    NotProgram,
    MissingFloat { text: Seq<char> },
    MissingData { path: Seq<char> },
    Arithmetic,
}

impl DeepView for GenError {
    type V = GenErrView;

    open spec fn deep_view(&self) -> GenErrView {
        match self {
            GenError::UnexpectedNode => GenErrView::UnexpectedNode,
            GenError::WrongArgument => GenErrView::WrongArgument,
            GenError::BadDirective { name } => GenErrView::BadDirective { name: name@ },
            GenError::MissingArgument => GenErrView::MissingArgument,
            GenError::LoopingDefines => GenErrView::LoopingDefines,
            GenError::UnknownInstruction { name } => GenErrView::UnknownInstruction {
                name: name@,
            },
            GenError::ArgumentCount { name } => GenErrView::ArgumentCount { name: name@ },
            GenError::BadRegister { name } => GenErrView::BadRegister { name: name@ },
            GenError::NoSection { name } => GenErrView::NoSection { name: name@ },
            GenError::MixedContent { name } => GenErrView::MixedContent { name: name@ },
            GenError::LabelRedefined { name } => GenErrView::LabelRedefined { name: name@ },
            GenError::NotProgram => GenErrView::NotProgram,
            GenError::MissingFloat { text } => GenErrView::MissingFloat { text: text@ },
            GenError::MissingData { path } => GenErrView::MissingData { path: path@ },
            GenError::Arithmetic => GenErrView::Arithmetic,
        }
    }
}

/// The generator's state between statements.
pub ghost struct GenState {
    pub header: ObjectFormatHeader,
    pub defines: Seq<(Seq<char>, crate::parser::NodeView)>,
    pub sections: Seq<SectionView>,
    pub current_section: Seq<char>,
}

/// The generator state an object holds.
pub open spec fn obj_state(o: ObjectFormat) -> GenState {
    GenState {
        header: o.header,
        defines: defines_view(o.defines@),
        sections: o.sections.deep_view(),
        current_section: o.current_section@,
    }
}

/// The mathematical image of the float table.
pub open spec fn floats_view(f: Seq<(Vec<char>, u64)>) -> Seq<(Seq<char>, u64)> {
    Seq::new(f.len(), |i: int| (f[i].0@, f[i].1))
}

/// The mathematical image of the data-file table.
pub open spec fn files_view(f: Seq<(Vec<char>, Vec<u8>)>) -> Seq<(Seq<char>, Seq<u8>)> {
    Seq::new(f.len(), |i: int| (f[i].0@, f[i].1@))
}

/// Last match for a float lexeme.
pub open spec fn spec_find_float(f: Seq<(Seq<char>, u64)>, text: Seq<char>) -> Option<u64>
    decreases f.len(),
{
    if f.len() == 0 {
        None
    } else if f.last().0 == text {
        Some(f.last().1)
    } else {
        spec_find_float(f.drop_last(), text)
    }
}

/// Last match for a data path.
pub open spec fn spec_find_file(f: Seq<(Seq<char>, Seq<u8>)>, path: Seq<char>) -> Option<Seq<u8>>
    decreases f.len(),
{
    if f.len() == 0 {
        None
    } else if f.last().0 == path {
        Some(f.last().1)
    } else {
        spec_find_file(f.drop_last(), path)
    }
}

/// A value truncated to 32 bits and sign-extended back.
pub open spec fn wrap32(n: i64) -> i64 {
    ((n as i32) as i64)
}

/// A value truncated to 16 bits and sign-extended back.
pub open spec fn wrap16(n: i64) -> i64 {
    ((n as i16) as i64)
}

/// A value truncated to 8 bits and sign-extended back.
pub open spec fn wrap8(n: i64) -> i64 {
    ((n as i8) as i64)
}

/// What resolving one instruction argument adds to the instruction.
pub ghost enum ArgAdd {
    Const(Constant),
    Ref(RefView),
    Nothing,
}

/// The value of a constant expression: literals, defines chased to a
/// bounded depth, and the four arithmetic operators over them.
pub open spec fn spec_eval_expr(
    defines: Seq<(Seq<char>, crate::parser::NodeView)>,
    node: crate::parser::NodeView,
    depth: nat,
) -> Result<i64, GenErrView>
    decreases 101 - depth, node,
    when depth <= 101
{
    match node.node_type {
        crate::parser::NodeTypeView::ConstInteger(n) => Ok(n),
        crate::parser::NodeTypeView::Identifier(name) => {
            if depth > 100 {
                Err(GenErrView::LoopingDefines)
            } else {
                match spec_find_define(defines, name) {
                    Some(nd) => spec_eval_expr(defines, nd, depth + 1),
                    None => Err(GenErrView::UnexpectedNode),
                }
            }
        },
        crate::parser::NodeTypeView::Expression(et) => match et {
            crate::parser::ExpressionType::Binary(op) => {
                if node.children.len() != 2 {
                    Err(GenErrView::UnexpectedNode)
                } else {
                    match spec_eval_expr(defines, node.children[0], depth) {
                        Err(e) => Err(e),
                        Ok(a) => match spec_eval_expr(defines, node.children[1], depth) {
                            Err(e) => Err(e),
                            Ok(b) => spec_apply_binop(op, a, b),
                        },
                    }
                }
            },
            crate::parser::ExpressionType::Unary(op) => {
                if node.children.len() != 1 {
                    Err(GenErrView::UnexpectedNode)
                } else {
                    match spec_eval_expr(defines, node.children[0], depth) {
                        Err(e) => Err(e),
                        Ok(a) => match op {
                            crate::parser::UnaryOp::Negate => {
                                if crate::parser::in_i64(0 - a) {
                                    Ok((0 - a) as i64)
                                } else {
                                    Err(GenErrView::Arithmetic)
                                }
                            },
                            crate::parser::UnaryOp::Identity => Ok(a),
                        },
                    }
                }
            },
        },
        _ => Err(GenErrView::UnexpectedNode),
    }
}

/// One arithmetic step of constant evaluation.
pub open spec fn spec_apply_binop(op: crate::parser::BinaryOp, a: i64, b: i64) -> Result<
    i64,
    GenErrView,
> {
    match op {
        crate::parser::BinaryOp::Addition => if crate::parser::in_i64(a + b) {
            Ok((a + b) as i64)
        } else {
            Err(GenErrView::Arithmetic)
        },
        crate::parser::BinaryOp::Subtraction => if crate::parser::in_i64(a - b) {
            Ok((a - b) as i64)
        } else {
            Err(GenErrView::Arithmetic)
        },
        crate::parser::BinaryOp::Multiplication => if crate::parser::in_i64(a * b) {
            Ok((a * b) as i64)
        } else {
            Err(GenErrView::Arithmetic)
        },
        crate::parser::BinaryOp::Division => {
            if b == 0 || !crate::parser::in_i64(crate::parser::trunc_div(a as int, b as int)) {
                Err(GenErrView::Arithmetic)
            } else {
                Ok(crate::parser::trunc_div(a as int, b as int) as i64)
            }
        },
    }
}

/// Resolving a define binding against an expected argument type: an
/// identifier binding chases further defines up to a depth of 100, a
/// literal becomes a constant of the width the argument asks for.
pub open spec fn spec_resolve_define(
    defines: Seq<(Seq<char>, crate::parser::NodeView)>,
    arg: u8,
    expected: crate::symbols::ArgumentTypes,
    node: crate::parser::NodeView,
    floats: Seq<(Seq<char>, u64)>,
    depth: nat,
) -> Result<ArgAdd, GenErrView>
    decreases 101 - depth,
    when depth <= 101
{
    if node.node_type matches crate::parser::NodeTypeView::Identifier(iden) {
        let iden = node.node_type->Identifier_0;
        if depth > 100 {
            Err(GenErrView::LoopingDefines)
        } else {
            match spec_find_define(defines, iden) {
                Some(nd) => spec_resolve_define(defines, arg, expected, nd, floats, depth + 1),
                None => Ok(ArgAdd::Nothing),
            }
        }
    } else {
        match expected {
            crate::symbols::ArgumentTypes::FloatingPoint
            | crate::symbols::ArgumentTypes::AbsPointer
            | crate::symbols::ArgumentTypes::RelPointer
            | crate::symbols::ArgumentTypes::Immediate32 => match node.node_type {
                crate::parser::NodeTypeView::ConstInteger(n) => Ok(ArgAdd::Const(Constant {
                    argument_pos: arg,
                    size: ConstantSize::DoubleWord,
                    value: wrap32(n),
                })),
                crate::parser::NodeTypeView::ConstFloat(text) => match spec_find_float(
                    floats, text) {
                    Some(bits) => Ok(ArgAdd::Const(Constant {
                        argument_pos: arg,
                        size: ConstantSize::DoubleWord,
                        value: wrap32(bits as i64),
                    })),
                    None => Err(GenErrView::MissingFloat { text }),
                },
                _ => Err(GenErrView::UnexpectedNode),
            },
            crate::symbols::ArgumentTypes::Immediate16 => match node.node_type {
                crate::parser::NodeTypeView::ConstInteger(n) => Ok(ArgAdd::Const(Constant {
                    argument_pos: arg,
                    size: ConstantSize::Word,
                    value: wrap16(n),
                })),
                _ => Err(GenErrView::UnexpectedNode),
            },
            crate::symbols::ArgumentTypes::Immediate8 => match node.node_type {
                crate::parser::NodeTypeView::ConstInteger(n) => Ok(ArgAdd::Const(Constant {
                    argument_pos: arg,
                    size: ConstantSize::Byte,
                    value: wrap8(n),
                })),
                _ => Err(GenErrView::UnexpectedNode),
            },
            _ => Err(GenErrView::UnexpectedNode),
        }
    }
}

/// The mangled form of a label use: a leading `@` is qualified with the
/// current outer label; a bare `@` names the outer label itself.
pub open spec fn spec_mangle(name: Seq<char>, current_label: Seq<char>) -> Seq<char> {
    if name.len() == 1 && name[0] == '@' {
        current_label
    } else if name.len() >= 1 && name[0] == '@' {
        current_label + name
    } else {
        name
    }
}

/// Resolving one instruction argument.
pub open spec fn spec_resolve_arg(
    defines: Seq<(Seq<char>, crate::parser::NodeView)>,
    node: crate::parser::NodeView,
    expected: crate::symbols::ArgumentTypes,
    index: u8,
    current_label: Seq<char>,
    floats: Seq<(Seq<char>, u64)>,
) -> Result<ArgAdd, GenErrView> {
    match node.node_type {
        crate::parser::NodeTypeView::Identifier(name) => {
            if spec_find_define(defines, name) is Some {
                spec_resolve_define(defines, index, expected, node, floats, 0)
            } else {
                match expected {
                    crate::symbols::ArgumentTypes::Condition => {
                        match crate::symbols::spec_condition(name) {
                            Some(code) => Ok(ArgAdd::Const(Constant {
                                argument_pos: index,
                                size: ConstantSize::Byte,
                                value: code as i64,
                            })),
                            None => Err(GenErrView::UnexpectedNode),
                        }
                    },
                    _ => Ok(ArgAdd::Ref(RefView {
                        argument_pos: index,
                        rf: spec_mangle(name, current_label),
                    })),
                }
            }
        },
        crate::parser::NodeTypeView::ConstFloat(text) => match expected {
            crate::symbols::ArgumentTypes::FloatingPoint
            | crate::symbols::ArgumentTypes::Immediate32 => match spec_find_float(floats, text) {
                Some(bits) => Ok(ArgAdd::Const(Constant {
                    argument_pos: index,
                    size: ConstantSize::DoubleWord,
                    value: wrap32(bits as i64),
                })),
                None => Err(GenErrView::MissingFloat { text }),
            },
            _ => Err(GenErrView::UnexpectedNode),
        },
        crate::parser::NodeTypeView::ConstInteger(n) => match expected {
            crate::symbols::ArgumentTypes::AbsPointer
            | crate::symbols::ArgumentTypes::RelPointer
            | crate::symbols::ArgumentTypes::Immediate32 => Ok(ArgAdd::Const(Constant {
                argument_pos: index,
                size: ConstantSize::DoubleWord,
                value: wrap32(n),
            })),
            crate::symbols::ArgumentTypes::Immediate16 => Ok(ArgAdd::Const(Constant {
                argument_pos: index,
                size: ConstantSize::Word,
                value: wrap16(n),
            })),
            crate::symbols::ArgumentTypes::Immediate8 => Ok(ArgAdd::Const(Constant {
                argument_pos: index,
                size: ConstantSize::Byte,
                value: wrap8(n),
            })),
            _ => Err(GenErrView::UnexpectedNode),
        },
        crate::parser::NodeTypeView::Register(name) => match expected {
            crate::symbols::ArgumentTypes::Register16 => match crate::parser::spec_reg16(name) {
                Some(code) => Ok(ArgAdd::Const(Constant {
                    argument_pos: index,
                    size: ConstantSize::Byte,
                    value: code as i64,
                })),
                None => Err(GenErrView::BadRegister { name }),
            },
            crate::symbols::ArgumentTypes::Register32 => match crate::parser::spec_reg32(name) {
                Some(code) => Ok(ArgAdd::Const(Constant {
                    argument_pos: index,
                    size: ConstantSize::Byte,
                    value: code as i64,
                })),
                None => Err(GenErrView::BadRegister { name }),
            },
            crate::symbols::ArgumentTypes::Register8 => match crate::parser::spec_reg8(name) {
                Some(code) => Ok(ArgAdd::Const(Constant {
                    argument_pos: index,
                    size: ConstantSize::Byte,
                    value: code as i64,
                })),
                None => Err(GenErrView::BadRegister { name }),
            },
            _ => Err(GenErrView::UnexpectedNode),
        },
        crate::parser::NodeTypeView::Expression(_) => {
            match spec_eval_expr(defines, node, 0) {
                Err(e) => Err(e),
                Ok(v) => match expected {
                    crate::symbols::ArgumentTypes::AbsPointer
                    | crate::symbols::ArgumentTypes::RelPointer
                    | crate::symbols::ArgumentTypes::FloatingPoint
                    | crate::symbols::ArgumentTypes::Immediate32 => Ok(ArgAdd::Const(Constant {
                        argument_pos: index,
                        size: ConstantSize::DoubleWord,
                        value: wrap32(v),
                    })),
                    crate::symbols::ArgumentTypes::Immediate16 => Ok(ArgAdd::Const(Constant {
                        argument_pos: index,
                        size: ConstantSize::Word,
                        value: wrap16(v),
                    })),
                    crate::symbols::ArgumentTypes::Immediate8 => Ok(ArgAdd::Const(Constant {
                        argument_pos: index,
                        size: ConstantSize::Byte,
                        value: wrap8(v),
                    })),
                    _ => Err(GenErrView::UnexpectedNode),
                },
            }
        },
        _ => Err(GenErrView::UnexpectedNode),
    }
}

/// The references and constants an argument list resolves to, in order.
pub open spec fn spec_resolve_args(
    defines: Seq<(Seq<char>, crate::parser::NodeView)>,
    children: Seq<crate::parser::NodeView>,
    args: Seq<crate::symbols::ArgumentTypes>,
    i: nat,
    current_label: Seq<char>,
    floats: Seq<(Seq<char>, u64)>,
) -> Result<(Seq<RefView>, Seq<Constant>), GenErrView>
    decreases children.len() - i,
    when i <= children.len() && children.len() == args.len()
{
    if i >= children.len() {
        Ok((Seq::empty(), Seq::empty()))
    } else {
        match spec_resolve_arg(defines, children[i as int], args[i as int], i as u8,
            current_label, floats) {
            Err(e) => Err(e),
            Ok(add) => match spec_resolve_args(defines, children, args, i + 1, current_label,
                floats) {
                Err(e) => Err(e),
                Ok((refs, consts)) => match add {
                    ArgAdd::Const(c) => Ok((refs, seq![c] + consts)),
                    ArgAdd::Ref(r) => Ok((seq![r] + refs, consts)),
                    ArgAdd::Nothing => Ok((refs, consts)),
                },
            },
        }
    }
}

/// One instruction statement: mnemonic looked up, arity checked, each
/// argument resolved, and the instruction appended to the current section.
pub open spec fn spec_process_instruction(
    st: GenState,
    name: Seq<char>,
    children: Seq<crate::parser::NodeView>,
    current_label: Seq<char>,
    floats: Seq<(Seq<char>, u64)>,
) -> Result<GenState, GenErrView> {
    match crate::symbols::spec_opcode(name) {
        None => Err(GenErrView::UnknownInstruction { name }),
        Some(opcode) => {
            let row = crate::symbols::spec_instruction(opcode)->Some_0;
            if row.1.len() != children.len() {
                Err(GenErrView::ArgumentCount { name })
            } else {
                match spec_resolve_args(st.defines, children, row.1, 0, current_label, floats) {
                    Err(e) => Err(e),
                    Ok((refs, consts)) => {
                        let instr = InstrView { opcode, references: refs, constants: consts };
                        match spec_find_section(st.sections, st.current_section) {
                            None => Err(GenErrView::NoSection { name: st.current_section }),
                            Some(k) => {
                                let sec = st.sections[k];
                                if sec.binary_data.len() != 0 {
                                    Err(GenErrView::MixedContent { name: st.current_section })
                                } else {
                                    Ok(GenState {
                                        sections: st.sections.update(k, SectionView {
                                            instructions: sec.instructions.push(instr),
                                            ..sec
                                        }),
                                        ..st
                                    })
                                }
                            },
                        }
                    },
                }
            }
        },
    }
}

/// One label statement: recorded at the current end of the section's
/// content, under a name that must be new.
pub open spec fn spec_add_label(st: GenState, name: Seq<char>) -> Result<GenState, GenErrView> {
    match spec_find_section(st.sections, st.current_section) {
        None => Err(GenErrView::NoSection { name: st.current_section }),
        Some(k) => {
            let sec = st.sections[k];
            let ptr: nat = if sec.binary_data.len() == 0 {
                sec.instructions.len()
            } else {
                sec.binary_data.len()
            };
            if label_name_taken(sec.labels, name) {
                Err(GenErrView::LabelRedefined { name })
            } else {
                Ok(GenState {
                    sections: st.sections.update(k, SectionView {
                        labels: sec.labels.push(LabelView { name, ptr: ptr as u64 }),
                        ..sec
                    }),
                    ..st
                })
            }
        },
    }
}

/// The units one `db`/`dw`/`dd` argument becomes: a reference for an
/// identifier, a constant for an integer, one constant per character for
/// a string — every unit of the directive's own size.
pub open spec fn spec_units_of_child(
    node: crate::parser::NodeView,
    mode: ConstantSize,
) -> Result<Seq<UnitView>, GenErrView> {
    match node.node_type {
        crate::parser::NodeTypeView::Identifier(name) => Ok(seq![UnitView {
            constant: None,
            reference: Some(BinRefView { rf: name, size: mode }),
        }]),
        crate::parser::NodeTypeView::ConstInteger(n) => {
            Ok(seq![UnitView {
                reference: None,
                constant: Some(BinaryConstant { size: mode, value: n }),
            }])
        },
        crate::parser::NodeTypeView::String(s) => Ok(Seq::new(s.len(), |i: int| UnitView {
            reference: None,
            constant: Some(BinaryConstant { size: mode, value: (s[i] as u32) as i64 }),
        })),
        _ => Err(GenErrView::UnexpectedNode),
    }
}

pub open spec fn spec_units_of_children(
    children: Seq<crate::parser::NodeView>,
    i: nat,
    mode: ConstantSize,
) -> Result<Seq<UnitView>, GenErrView>
    decreases children.len() - i,
    when i <= children.len()
{
    if i >= children.len() {
        Ok(Seq::empty())
    } else {
        match spec_units_of_child(children[i as int], mode) {
            Err(e) => Err(e),
            Ok(us) => match spec_units_of_children(children, i + 1, mode) {
                Err(e) => Err(e),
                Ok(rest) => Ok(us + rest),
            },
        }
    }
}

/// One data directive (`db`, `dw` or `dd`): the current section becomes a
/// data section and the arguments' units are appended.
pub open spec fn spec_apply_data_directive(
    st: GenState,
    children: Seq<crate::parser::NodeView>,
    mode: ConstantSize,
) -> Result<GenState, GenErrView> {
    match spec_find_section(st.sections, st.current_section) {
        None => Err(GenErrView::NoSection { name: st.current_section }),
        Some(k) => {
            let sec = st.sections[k];
            if sec.instructions.len() != 0 {
                Err(GenErrView::MixedContent { name: st.current_section })
            } else if children.len() == 0 {
                Err(GenErrView::MissingArgument)
            } else {
                match spec_units_of_children(children, 0, mode) {
                    Err(e) => Err(e),
                    Ok(us) => Ok(GenState {
                        sections: st.sections.update(k, SectionView {
                            binary_data: sec.binary_data + us,
                            binary_section: true,
                            ..sec
                        }),
                        ..st
                    }),
                }
            }
        },
    }
}

/// Every directive.  `section` switches or creates a section, `define`
/// binds a name (evaluating a constant expression first), the data
/// directives append units, `resb` appends zero bytes, and `data` appends
/// the bytes supplied for a path.
pub open spec fn spec_apply_directive(
    st: GenState,
    name: Seq<char>,
    children: Seq<crate::parser::NodeView>,
    floats: Seq<(Seq<char>, u64)>,
    files: Seq<(Seq<char>, Seq<u8>)>,
) -> Result<GenState, GenErrView> {
    if name == "section"@ {
        if children.len() == 0 {
            Err(GenErrView::MissingArgument)
        } else if children[0].node_type matches crate::parser::NodeTypeView::String(secname) {
            let secname = children[0].node_type->String_0;
            let st2 = GenState { current_section: secname, ..st };
            if spec_find_section(st.sections, secname) is Some {
                Ok(st2)
            } else {
                Ok(GenState {
                    sections: st2.sections.push(SectionView {
                        name: secname,
                        instructions: Seq::empty(),
                        labels: Seq::empty(),
                        binary_data: Seq::empty(),
                        binary_section: false,
                    }),
                    header: ObjectFormatHeader {
                        sections_length: st.header.sections_length.wrapping_add(1),
                        ..st.header
                    },
                    ..st2
                })
            }
        } else {
            Err(GenErrView::WrongArgument)
        }
    } else if name == "define"@ {
        if children.len() < 2 {
            Err(GenErrView::MissingArgument)
        } else if children[0].node_type matches crate::parser::NodeTypeView::Identifier(dname) {
            let dname = children[0].node_type->Identifier_0;
            let data = children[1];
            if data.node_type matches crate::parser::NodeTypeView::Expression(_) {
                match spec_eval_expr(st.defines, data, 0) {
                    Err(e) => Err(e),
                    Ok(v) => Ok(GenState {
                        defines: st.defines.push((dname, crate::parser::NodeView {
                            node_type: crate::parser::NodeTypeView::ConstInteger(v),
                            children: Seq::empty(),
                        })),
                        ..st
                    }),
                }
            } else {
                Ok(GenState { defines: st.defines.push((dname, data)), ..st })
            }
        } else {
            Err(GenErrView::WrongArgument)
        }
    } else if name == "db"@ {
        spec_apply_data_directive(st, children, ConstantSize::Byte)
    } else if name == "dw"@ {
        spec_apply_data_directive(st, children, ConstantSize::Word)
    } else if name == "dd"@ {
        spec_apply_data_directive(st, children, ConstantSize::DoubleWord)
    } else if name == "resb"@ {
        match spec_find_section(st.sections, st.current_section) {
            None => Err(GenErrView::NoSection { name: st.current_section }),
            Some(k) => {
                let sec = st.sections[k];
                if sec.instructions.len() != 0 {
                    Err(GenErrView::MixedContent { name: st.current_section })
                } else if children.len() == 0 {
                    Err(GenErrView::MissingArgument)
                } else {
                    let added: Seq<UnitView> =
                        if children[0].node_type matches
                            crate::parser::NodeTypeView::ConstInteger(n) {
                            let n = children[0].node_type->ConstInteger_0;
                            if n > 0 {
                                Seq::new(n as nat, |i: int| UnitView {
                                    reference: None,
                                    constant: Some(BinaryConstant {
                                        size: ConstantSize::Byte,
                                        value: 0,
                                    }),
                                })
                            } else {
                                Seq::empty()
                            }
                        } else {
                            Seq::empty()
                        };
                    Ok(GenState {
                        sections: st.sections.update(k, SectionView {
                            binary_data: sec.binary_data + added,
                            binary_section: true,
                            ..sec
                        }),
                        ..st
                    })
                }
            },
        }
    } else if name == "data"@ {
        match spec_find_section(st.sections, st.current_section) {
            None => Err(GenErrView::NoSection { name: st.current_section }),
            Some(k) => {
                let sec = st.sections[k];
                if !sec.binary_section || sec.instructions.len() != 0 {
                    Err(GenErrView::MixedContent { name: st.current_section })
                } else if children.len() == 0 {
                    Err(GenErrView::MissingArgument)
                } else if children[0].node_type matches crate::parser::NodeTypeView::String(path) {
                    let path = children[0].node_type->String_0;
                    match spec_find_file(files, path) {
                        None => Err(GenErrView::MissingData { path }),
                        Some(content) => Ok(GenState {
                            sections: st.sections.update(k, SectionView {
                                binary_data: sec.binary_data + Seq::new(content.len(),
                                    |i: int| UnitView {
                                        reference: None,
                                        constant: Some(BinaryConstant {
                                            size: ConstantSize::Byte,
                                            value: content[i] as i64,
                                        }),
                                    }),
                                ..sec
                            }),
                            ..st
                        }),
                    }
                } else {
                    Err(GenErrView::WrongArgument)
                }
            },
        }
    } else {
        Err(GenErrView::BadDirective { name })
    }
}

/// One top-level statement of the program.
pub open spec fn spec_gen_step(
    st: GenState,
    node: crate::parser::NodeView,
    current_label: Seq<char>,
    floats: Seq<(Seq<char>, u64)>,
    files: Seq<(Seq<char>, Seq<u8>)>,
) -> Result<(GenState, Seq<char>), GenErrView> {
    match node.node_type {
        crate::parser::NodeTypeView::CompilerInstruction(name) => {
            match spec_apply_directive(st, name, node.children, floats, files) {
                Ok(st2) => Ok((st2, current_label)),
                Err(e) => Err(e),
            }
        },
        crate::parser::NodeTypeView::Instruction(name) => {
            match spec_process_instruction(st, name, node.children, current_label, floats) {
                Ok(st2) => Ok((st2, current_label)),
                Err(e) => Err(e),
            }
        },
        crate::parser::NodeTypeView::Label(name) => {
            match spec_add_label(st, name) {
                Ok(st2) => {
                    if name.contains('@') {
                        Ok((st2, current_label))
                    } else {
                        Ok((st2, name))
                    }
                },
                Err(e) => Err(e),
            }
        },
        _ => Err(GenErrView::UnexpectedNode),
    }
}

/// All statements of the program from index `i` on.
pub open spec fn spec_gen_load(
    st: GenState,
    nodes: Seq<crate::parser::NodeView>,
    i: nat,
    current_label: Seq<char>,
    floats: Seq<(Seq<char>, u64)>,
    files: Seq<(Seq<char>, Seq<u8>)>,
) -> Result<GenState, GenErrView>
    decreases nodes.len() - i,
    when i <= nodes.len()
{
    if i >= nodes.len() {
        Ok(st)
    } else {
        match spec_gen_step(st, nodes[i as int], current_label, floats, files) {
            Err(e) => Err(e),
            Ok((st2, lbl2)) => spec_gen_load(st2, nodes, i + 1, lbl2, floats, files),
        }
    }
}

/// What loading a whole program node does to an object.
pub open spec fn spec_load_program(
    st: GenState,
    root: crate::parser::NodeView,
    floats: Seq<(Seq<char>, u64)>,
    files: Seq<(Seq<char>, Seq<u8>)>,
) -> Result<GenState, GenErrView> {
    if root.node_type != crate::parser::NodeTypeView::Program {
        Err(GenErrView::NotProgram)
    } else {
        spec_gen_load(st, root.children, 0, Seq::empty(), floats, files)
    }
}

// ---------------------------------------------------------------------------
// Executable mirror of the generator.

/// Finds the index of the latest float entry for a lexeme.
fn float_find(floats: &Vec<(Vec<char>, u64)>, text: &[char]) -> (r: Option<u64>)
    ensures
        r == spec_find_float(floats_view(floats@), text@),
{
    let ghost fv = floats_view(floats@);
    proof {
        assert(fv.take(fv.len() as int) =~= fv);
    }
    let mut i: usize = floats.len();
    while i > 0
        invariant
            i <= floats@.len(),
            fv == floats_view(floats@),
            fv.len() == floats@.len(),
            spec_find_float(fv, text@) == spec_find_float(fv.take(i as int), text@),
        decreases i,
    {
        i = i - 1;
        proof {
            assert(fv.take(i as int + 1).last() == fv[i as int]);
            assert(fv.take(i as int + 1).drop_last() =~= fv.take(i as int));
        }
        if crate::text::eq_chars(floats[i].0.as_slice(), text) {
            return Some(floats[i].1);
        }
    }
    proof {
        assert(fv.take(0).len() == 0);
    }
    None
}

/// Finds the latest data entry for a path.
fn file_find<'a>(files: &'a Vec<(Vec<char>, Vec<u8>)>, path: &[char]) -> (r: Option<&'a Vec<u8>>)
    ensures
        match spec_find_file(files_view(files@), path@) {
            Some(c) => r is Some && r->Some_0@ == c,
            None => r is None,
        },
{
    let ghost fv = files_view(files@);
    proof {
        assert(fv.take(fv.len() as int) =~= fv);
    }
    let mut i: usize = files.len();
    while i > 0
        invariant
            i <= files@.len(),
            fv == files_view(files@),
            fv.len() == files@.len(),
            spec_find_file(fv, path@) == spec_find_file(fv.take(i as int), path@),
        decreases i,
    {
        i = i - 1;
        proof {
            assert(fv.take(i as int + 1).last() == fv[i as int]);
            assert(fv.take(i as int + 1).drop_last() =~= fv.take(i as int));
        }
        if crate::text::eq_chars(files[i].0.as_slice(), path) {
            return Some(&files[i].1);
        }
    }
    proof {
        assert(fv.take(0).len() == 0);
    }
    None
}

/// Finds the index of the first section with a name.
pub(crate) fn find_section_idx(sections: &Vec<SectionData>, name: &[char]) -> (r: Option<usize>)
    ensures
        match spec_find_section(sections.deep_view(), name@) {
            Some(k) => r is Some && r->Some_0 == k,
            None => r is None,
        },
{
    proof {
        lemma_find_section(sections.deep_view(), name@);
    }
    let mut i: usize = 0;
    while i < sections.len()
        invariant
            i <= sections@.len(),
            forall|m: int| 0 <= m < i ==> (#[trigger] sections.deep_view()[m]).name != name@,
        decreases sections@.len() - i,
    {
        if crate::text::eq_chars(sections[i].name.as_slice(), name) {
            proof {
                lemma_find_section_witness(sections.deep_view(), name@, i as nat);
            }
            return Some(i);
        }
        i = i + 1;
    }
    None
}

fn apply_binop(op: crate::parser::BinaryOp, a: i64, b: i64) -> (r: Result<i64, GenError>)
    ensures
        match spec_apply_binop(op, a, b) {
            Ok(v) => r is Ok && r->Ok_0 == v,
            Err(e) => r is Err && r->Err_0.deep_view() == e,
        },
{
    let v = match op {
        crate::parser::BinaryOp::Addition => a.checked_add(b),
        crate::parser::BinaryOp::Subtraction => a.checked_sub(b),
        crate::parser::BinaryOp::Multiplication => a.checked_mul(b),
        crate::parser::BinaryOp::Division => a.checked_div(b),
    };
    match v {
        Some(x) => Ok(x),
        None => Err(GenError::Arithmetic),
    }
}

/// Evaluates a constant expression over the `define` table.
fn eval_expr(
    defines: &Vec<(Vec<char>, crate::parser::ParserNode)>,
    node: &crate::parser::ParserNode,
    depth: u64,
) -> (r: Result<i64, GenError>)
    requires
        depth <= 101,
    ensures
        match spec_eval_expr(defines_view(defines@), node.deep_view(), depth as nat) {
            Ok(v) => r is Ok && r->Ok_0 == v,
            Err(e) => r is Err && r->Err_0.deep_view() == e,
        },
    decreases 101 - depth, *node,
{
    match &node.node_type {
        crate::parser::NodeType::ConstInteger(n) => Ok(*n),
        crate::parser::NodeType::Identifier(name) => {
            if depth > 100 {
                Err(GenError::LoopingDefines)
            } else {
                match define_find(defines, name.as_slice()) {
                    Some(k) => eval_expr(defines, &defines[k].1, depth + 1),
                    None => Err(GenError::UnexpectedNode),
                }
            }
        },
        crate::parser::NodeType::Expression(et) => {
            match et {
                crate::parser::ExpressionType::Binary(op) => {
                    if node.children.len() != 2 {
                        Err(GenError::UnexpectedNode)
                    } else {
                        proof {
                            assert(node.deep_view().children[0]
                                == node.children.deep_view()[0]);
                            assert(node.deep_view().children[1]
                                == node.children.deep_view()[1]);
                        }
                        let a = eval_expr(defines, &node.children[0], depth)?;
                        let b = eval_expr(defines, &node.children[1], depth)?;
                        apply_binop(*op, a, b)
                    }
                },
                crate::parser::ExpressionType::Unary(op) => {
                    if node.children.len() != 1 {
                        Err(GenError::UnexpectedNode)
                    } else {
                        proof {
                            assert(node.deep_view().children[0]
                                == node.children.deep_view()[0]);
                        }
                        let a = eval_expr(defines, &node.children[0], depth)?;
                        match op {
                            crate::parser::UnaryOp::Negate => match (0i64).checked_sub(a) {
                                Some(x) => Ok(x),
                                None => Err(GenError::Arithmetic),
                            },
                            crate::parser::UnaryOp::Identity => Ok(a),
                        }
                    }
                },
            }
        },
        _ => Err(GenError::UnexpectedNode),
    }
}

/// What resolving an argument adds to the instruction being built.
enum ArgAddExec {
    Const(Constant),
    Ref(Reference),
    Nothing,
}

impl ArgAddExec {
    spec fn matches(&self, a: ArgAdd) -> bool {
        match a {
            ArgAdd::Const(c) => self matches ArgAddExec::Const(c2) && c2 == c,
            ArgAdd::Ref(r) => self matches ArgAddExec::Ref(r2) && r2.deep_view() == r,
            ArgAdd::Nothing => self matches ArgAddExec::Nothing,
        }
    }
}

fn resolve_define_exec(
    defines: &Vec<(Vec<char>, crate::parser::ParserNode)>,
    arg: u8,
    expected: crate::symbols::ArgumentTypes,
    node: &crate::parser::ParserNode,
    floats: &Vec<(Vec<char>, u64)>,
    depth: u64,
) -> (r: Result<ArgAddExec, GenError>)
    requires
        depth <= 101,
    ensures
        match spec_resolve_define(defines_view(defines@), arg, expected, node.deep_view(),
            floats_view(floats@), depth as nat) {
            Ok(a) => r is Ok && r->Ok_0.matches(a),
            Err(e) => r is Err && r->Err_0.deep_view() == e,
        },
    decreases 101 - depth,
{
    if let crate::parser::NodeType::Identifier(iden) = &node.node_type {
        if depth > 100 {
            return Err(GenError::LoopingDefines);
        }
        return match define_find(defines, iden.as_slice()) {
            Some(k) => resolve_define_exec(defines, arg, expected, &defines[k].1, floats,
                depth + 1),
            None => Ok(ArgAddExec::Nothing),
        };
    }
    match expected {
        crate::symbols::ArgumentTypes::FloatingPoint
        | crate::symbols::ArgumentTypes::AbsPointer
        | crate::symbols::ArgumentTypes::RelPointer
        | crate::symbols::ArgumentTypes::Immediate32 => match &node.node_type {
            crate::parser::NodeType::ConstInteger(n) => Ok(ArgAddExec::Const(Constant {
                argument_pos: arg,
                size: ConstantSize::DoubleWord,
                value: (*n as i32) as i64,
            })),
            crate::parser::NodeType::ConstFloat(text) => match float_find(floats,
                text.as_slice()) {
                Some(bits) => Ok(ArgAddExec::Const(Constant {
                    argument_pos: arg,
                    size: ConstantSize::DoubleWord,
                    value: ((bits as i64) as i32) as i64,
                })),
                None => Err(GenError::MissingFloat { text: crate::text::clone_chars(text) }),
            },
            _ => Err(GenError::UnexpectedNode),
        },
        crate::symbols::ArgumentTypes::Immediate16 => match &node.node_type {
            crate::parser::NodeType::ConstInteger(n) => Ok(ArgAddExec::Const(Constant {
                argument_pos: arg,
                size: ConstantSize::Word,
                value: (*n as i16) as i64,
            })),
            _ => Err(GenError::UnexpectedNode),
        },
        crate::symbols::ArgumentTypes::Immediate8 => match &node.node_type {
            crate::parser::NodeType::ConstInteger(n) => Ok(ArgAddExec::Const(Constant {
                argument_pos: arg,
                size: ConstantSize::Byte,
                value: (*n as i8) as i64,
            })),
            _ => Err(GenError::UnexpectedNode),
        },
        _ => Err(GenError::UnexpectedNode),
    }
}

/// The mangled form of a label use.
fn mangle(name: &Vec<char>, current_label: &[char]) -> (r: Vec<char>)
    ensures
        r@ == spec_mangle(name@, current_label@),
{
    if name.len() == 1 && name[0] == '@' {
        let r = vstd::slice::slice_to_vec(current_label);
        proof {
            assert(name@ =~= seq!['@']);
        }
        r
    } else if name.len() >= 1 && name[0] == '@' {
        let mut r = vstd::slice::slice_to_vec(current_label);
        let mut tail = crate::text::clone_chars(name);
        r.append(&mut tail);
        r
    } else {
        crate::text::clone_chars(name)
    }
}

fn resolve_arg_exec(
    defines: &Vec<(Vec<char>, crate::parser::ParserNode)>,
    node: &crate::parser::ParserNode,
    expected: crate::symbols::ArgumentTypes,
    index: u8,
    current_label: &[char],
    floats: &Vec<(Vec<char>, u64)>,
) -> (r: Result<ArgAddExec, GenError>)
    ensures
        match spec_resolve_arg(defines_view(defines@), node.deep_view(), expected, index,
            current_label@, floats_view(floats@)) {
            Ok(a) => r is Ok && r->Ok_0.matches(a),
            Err(e) => r is Err && r->Err_0.deep_view() == e,
        },
{
    match &node.node_type {
        crate::parser::NodeType::Identifier(name) => {
            if define_find(defines, name.as_slice()).is_some() {
                resolve_define_exec(defines, index, expected, node, floats, 0)
            } else {
                match expected {
                    crate::symbols::ArgumentTypes::Condition => {
                        let conditions = crate::symbols::Conditions::new();
                        match conditions.get_condition(name.as_slice()) {
                            Some(code) => Ok(ArgAddExec::Const(Constant {
                                argument_pos: index,
                                size: ConstantSize::Byte,
                                value: code as i64,
                            })),
                            None => Err(GenError::UnexpectedNode),
                        }
                    },
                    _ => Ok(ArgAddExec::Ref(Reference {
                        argument_pos: index,
                        rf: mangle(name, current_label),
                    })),
                }
            }
        },
        crate::parser::NodeType::ConstFloat(text) => match expected {
            crate::symbols::ArgumentTypes::FloatingPoint
            | crate::symbols::ArgumentTypes::Immediate32 => match float_find(floats,
                text.as_slice()) {
                Some(bits) => Ok(ArgAddExec::Const(Constant {
                    argument_pos: index,
                    size: ConstantSize::DoubleWord,
                    value: ((bits as i64) as i32) as i64,
                })),
                None => Err(GenError::MissingFloat { text: crate::text::clone_chars(text) }),
            },
            _ => Err(GenError::UnexpectedNode),
        },
        crate::parser::NodeType::ConstInteger(n) => match expected {
            crate::symbols::ArgumentTypes::AbsPointer
            | crate::symbols::ArgumentTypes::RelPointer
            | crate::symbols::ArgumentTypes::Immediate32 => Ok(ArgAddExec::Const(Constant {
                argument_pos: index,
                size: ConstantSize::DoubleWord,
                value: (*n as i32) as i64,
            })),
            crate::symbols::ArgumentTypes::Immediate16 => Ok(ArgAddExec::Const(Constant {
                argument_pos: index,
                size: ConstantSize::Word,
                value: (*n as i16) as i64,
            })),
            crate::symbols::ArgumentTypes::Immediate8 => Ok(ArgAddExec::Const(Constant {
                argument_pos: index,
                size: ConstantSize::Byte,
                value: (*n as i8) as i64,
            })),
            _ => Err(GenError::UnexpectedNode),
        },
        crate::parser::NodeType::Register(name) => {
            let registers = crate::parser::Registers::new();
            match expected {
                crate::symbols::ArgumentTypes::Register16 => match registers.get16(
                    name.as_slice()) {
                    Some(code) => Ok(ArgAddExec::Const(Constant {
                        argument_pos: index,
                        size: ConstantSize::Byte,
                        value: code as i64,
                    })),
                    None => Err(GenError::BadRegister { name: crate::text::clone_chars(name) }),
                },
                crate::symbols::ArgumentTypes::Register32 => match registers.get32(
                    name.as_slice()) {
                    Some(code) => Ok(ArgAddExec::Const(Constant {
                        argument_pos: index,
                        size: ConstantSize::Byte,
                        value: code as i64,
                    })),
                    None => Err(GenError::BadRegister { name: crate::text::clone_chars(name) }),
                },
                crate::symbols::ArgumentTypes::Register8 => match registers.get8(
                    name.as_slice()) {
                    Some(code) => Ok(ArgAddExec::Const(Constant {
                        argument_pos: index,
                        size: ConstantSize::Byte,
                        value: code as i64,
                    })),
                    None => Err(GenError::BadRegister { name: crate::text::clone_chars(name) }),
                },
                _ => Err(GenError::UnexpectedNode),
            }
        },
        crate::parser::NodeType::Expression(_) => {
            let v = eval_expr(defines, node, 0)?;
            match expected {
                crate::symbols::ArgumentTypes::AbsPointer
                | crate::symbols::ArgumentTypes::RelPointer
                | crate::symbols::ArgumentTypes::FloatingPoint
                | crate::symbols::ArgumentTypes::Immediate32 => Ok(ArgAddExec::Const(Constant {
                    argument_pos: index,
                    size: ConstantSize::DoubleWord,
                    value: (v as i32) as i64,
                })),
                crate::symbols::ArgumentTypes::Immediate16 => Ok(ArgAddExec::Const(Constant {
                    argument_pos: index,
                    size: ConstantSize::Word,
                    value: (v as i16) as i64,
                })),
                crate::symbols::ArgumentTypes::Immediate8 => Ok(ArgAddExec::Const(Constant {
                    argument_pos: index,
                    size: ConstantSize::Byte,
                    value: (v as i8) as i64,
                })),
                _ => Err(GenError::UnexpectedNode),
            }
        },
        _ => Err(GenError::UnexpectedNode),
    }
}

impl ObjectFormat {
    /// Lowers one instruction statement into the current section.
    #[verifier::loop_isolation(false)]
    #[verifier::rlimit(100)]
    pub fn process_instruction(
        &mut self,
        name: &[char],
        children: &Vec<crate::parser::ParserNode>,
        current_label: &[char],
    ) -> (r: Result<(), GenError>)
        ensures
            match spec_process_instruction(obj_state(*old(self)), name@, children.deep_view(),
                current_label@, floats_view(old(self).float_values@)) {
                Ok(st2) => r is Ok && obj_state(*final(self)) == st2
                    && final(self).float_values == old(self).float_values
                    && final(self).data_files == old(self).data_files,
                Err(e) => r is Err && r->Err_0.deep_view() == e && *final(self) == *old(self),
            },
    {
        let instructions_table = crate::symbols::Instructions::new();
        let opcode = match instructions_table.get_opcode(name) {
            Some(o) => o,
            None => {
                return Err(GenError::UnknownInstruction { name: vstd::slice::slice_to_vec(name) });
            },
        };
        proof {
            crate::symbols::lemma_opcode_has_instruction(name@);
        }
        let instruction = match instructions_table.get_instruction(opcode) {
            Some(x) => x,
            None => {
                proof {
                    assert(false);
                }
                return Err(GenError::UnknownInstruction { name: vstd::slice::slice_to_vec(name) });
            },
        };
        if instruction.args.len() != children.len() {
            return Err(GenError::ArgumentCount { name: vstd::slice::slice_to_vec(name) });
        }
        let ghost dv = defines_view(self.defines@);
        let ghost chv = children.deep_view();
        let ghost argv = instruction.args@;
        let ghost flv = floats_view(self.float_values@);
        let ghost lblv = current_label@;
        let mut references: Vec<Reference> = Vec::new();
        let mut constants: Vec<Constant> = Vec::new();
        proof {
            assert(references.deep_view() =~= Seq::<RefView>::empty());
            assert(constants@ =~= Seq::<Constant>::empty());
            match spec_resolve_args(dv, chv, argv, 0, lblv, flv) {
                Ok((rs, cs)) => {
                    assert(references.deep_view() + rs =~= rs);
                    assert(constants@ + cs =~= cs);
                },
                Err(e) => {},
            }
        }
        let mut i: usize = 0;
        while i < children.len()
            invariant
                i <= chv.len(),
                chv.len() == argv.len(),
                spec_resolve_args(dv, chv, argv, 0, lblv, flv)
                    == (match spec_resolve_args(dv, chv, argv, i as nat, lblv, flv) {
                        Ok((rs, cs)) => Ok::<(Seq<RefView>, Seq<Constant>), GenErrView>(
                            (references.deep_view() + rs, constants@ + cs)),
                        Err(e) => Err::<(Seq<RefView>, Seq<Constant>), GenErrView>(e),
                    }),
            decreases chv.len() - i,
        {
            let ghost refs_pre = references.deep_view();
            let ghost consts_pre = constants@;
            let add = match resolve_arg_exec(&self.defines, &children[i], instruction.args[i],
                i as u8, current_label, &self.float_values) {
                Ok(a) => a,
                Err(e) => {
                    return Err(e);
                },
            };
            match add {
                ArgAddExec::Const(c) => {
                    constants.push(c);
                },
                ArgAddExec::Ref(rf) => {
                    let ghost rv = rf.deep_view();
                    references.push(rf);
                    proof {
                        assert(references.deep_view() =~= refs_pre.push(rv));
                    }
                },
                ArgAddExec::Nothing => {},
            }
            i = i + 1;
            proof {
                match spec_resolve_args(dv, chv, argv, i as nat, lblv, flv) {
                    Ok((rs, cs)) => {
                        match spec_resolve_arg(dv, chv[i - 1], argv[i - 1], (i - 1) as u8,
                            lblv, flv) {
                            Ok(a) => {
                                match a {
                                    ArgAdd::Const(c) => {
                                        assert(refs_pre + rs =~= references.deep_view() + rs);
                                        assert(consts_pre + (seq![c] + cs)
                                            =~= constants@ + cs);
                                    },
                                    ArgAdd::Ref(rv) => {
                                        assert(refs_pre + (seq![rv] + rs)
                                            =~= references.deep_view() + rs);
                                        assert(consts_pre + cs =~= constants@ + cs);
                                    },
                                    ArgAdd::Nothing => {
                                        assert(refs_pre + rs =~= references.deep_view() + rs);
                                        assert(consts_pre + cs =~= constants@ + cs);
                                    },
                                }
                            },
                            Err(e) => {},
                        }
                    },
                    Err(e) => {},
                }
            }
        }
        proof {
            match spec_resolve_args(dv, chv, argv, chv.len(), lblv, flv) {
                Ok((rs, cs)) => {
                    assert(references.deep_view() + rs =~= references.deep_view());
                    assert(constants@ + cs =~= constants@);
                },
                Err(e) => {},
            }
        }
        let k = match find_section_idx(&self.sections, self.current_section.as_slice()) {
            Some(k) => k,
            None => {
                return Err(GenError::NoSection { name: crate::text::clone_chars(&self.current_section) });
            },
        };
        proof {
            lemma_find_section(self.sections.deep_view(), self.current_section@);
        }
        if self.sections[k].binary_data.len() != 0 {
            return Err(GenError::MixedContent { name: crate::text::clone_chars(&self.current_section) });
        }
        let instr = InstructionData { opcode, references, constants };
        let ghost iv = instr.deep_view();
        let ghost old_secs = self.sections.deep_view();
        let mut sec = self.sections.remove(k);
        let ghost secv = sec.deep_view();
        sec.instructions.push(instr);
        proof {
            assert(sec.deep_view().instructions =~= secv.instructions.push(iv));
        }
        let ghost sec2v = sec.deep_view();
        self.sections.insert(k, sec);
        proof {
            assert forall|m: int| 0 <= m < self.sections.deep_view().len() implies
                self.sections.deep_view()[m] == old_secs.update(k as int, sec2v)[m] by {
                if m < k {
                } else if m == k {
                } else {
                }
            }
            assert(self.sections.deep_view() =~= old_secs.update(k as int, sec2v));
        }
        Ok(())
    }
}

impl ObjectFormat {
    /// Records one label at the current end of the current section.
    pub fn add_label(&mut self, name: &Vec<char>) -> (r: Result<(), GenError>)
        ensures
            match spec_add_label(obj_state(*old(self)), name@) {
                Ok(st2) => r is Ok && obj_state(*final(self)) == st2
                    && final(self).float_values == old(self).float_values
                    && final(self).data_files == old(self).data_files,
                Err(e) => r is Err && r->Err_0.deep_view() == e && *final(self) == *old(self),
            },
    {
        let k = match find_section_idx(&self.sections, self.current_section.as_slice()) {
            Some(k) => k,
            None => {
                return Err(GenError::NoSection { name: crate::text::clone_chars(&self.current_section) });
            },
        };
        proof {
            lemma_find_section(self.sections.deep_view(), self.current_section@);
        }
        if labels_contain(&self.sections[k].labels, name.as_slice()) {
            return Err(GenError::LabelRedefined { name: crate::text::clone_chars(name) });
        }
        let ghost old_secs = self.sections.deep_view();
        let mut sec = self.sections.remove(k);
        let ghost secv = sec.deep_view();
        let pointer: usize = if sec.binary_data.len() == 0 {
            sec.instructions.len()
        } else {
            sec.binary_data.len()
        };
        sec.labels.push(ObjectLabelSymbol {
            name: crate::text::clone_chars(name),
            ptr: pointer as u64,
        });
        proof {
            assert(sec.deep_view().labels
                =~= secv.labels.push(LabelView { name: name@, ptr: pointer as u64 }));
        }
        let ghost sec2v = sec.deep_view();
        self.sections.insert(k, sec);
        proof {
            assert forall|m: int| 0 <= m < self.sections.deep_view().len() implies
                self.sections.deep_view()[m] == old_secs.update(k as int, sec2v)[m] by {
                if m < k {
                } else if m == k {
                } else {
                }
            }
            assert(self.sections.deep_view() =~= old_secs.update(k as int, sec2v));
        }
        Ok(())
    }

    /// Appends the units of one `db`, `dw` or `dd` directive.
    #[verifier::loop_isolation(false)]
    #[verifier::rlimit(100)]
    fn data_directive(
        &mut self,
        children: &Vec<crate::parser::ParserNode>,
        mode: ConstantSize,
    ) -> (r: Result<(), GenError>)
        ensures
            match spec_apply_data_directive(obj_state(*old(self)), children.deep_view(),
                mode) {
                Ok(st2) => r is Ok && obj_state(*final(self)) == st2
                    && final(self).float_values == old(self).float_values
                    && final(self).data_files == old(self).data_files,
                Err(e) => r is Err && r->Err_0.deep_view() == e && *final(self) == *old(self),
            },
    {
        let k = match find_section_idx(&self.sections, self.current_section.as_slice()) {
            Some(k) => k,
            None => {
                return Err(GenError::NoSection { name: crate::text::clone_chars(&self.current_section) });
            },
        };
        proof {
            lemma_find_section(self.sections.deep_view(), self.current_section@);
        }
        if self.sections[k].instructions.len() != 0 {
            return Err(GenError::MixedContent { name: crate::text::clone_chars(&self.current_section) });
        }
        if children.len() == 0 {
            return Err(GenError::MissingArgument);
        }
        let ghost chv = children.deep_view();
        let mut units: Vec<BinaryUnit> = Vec::new();
        proof {
            assert(units.deep_view() =~= Seq::<UnitView>::empty());
            match spec_units_of_children(chv, 0, mode) {
                Ok(us) => {
                    assert(units.deep_view() + us =~= us);
                },
                Err(e) => {},
            }
        }
        let mut i: usize = 0;
        while i < children.len()
            invariant
                i <= chv.len(),
                spec_units_of_children(chv, 0, mode)
                    == (match spec_units_of_children(chv, i as nat, mode) {
                        Ok(us) => Ok::<Seq<UnitView>, GenErrView>(units.deep_view() + us),
                        Err(e) => Err::<Seq<UnitView>, GenErrView>(e),
                    }),
            decreases chv.len() - i,
        {
            let ghost pre = units.deep_view();
            proof {
                assert(chv[i as int] == children@[i as int].deep_view());
            }
            match &children[i].node_type {
                crate::parser::NodeType::Identifier(sym_name) => {
                    units.push(BinaryUnit {
                        constant: None,
                        reference: Some(BinaryReference {
                            size: mode,
                            rf: crate::text::clone_chars(sym_name),
                        }),
                    });
                    proof {
                        assert(units.deep_view() =~= pre + seq![UnitView {
                            constant: None,
                            reference: Some(BinRefView { rf: sym_name@, size: mode }),
                        }]);
                    }
                },
                crate::parser::NodeType::ConstInteger(num) => {
                    let n = *num;
                    units.push(BinaryUnit {
                        reference: None,
                        constant: Some(BinaryConstant { size: mode, value: n }),
                    });
                    proof {
                        assert(units.deep_view() =~= pre + seq![UnitView {
                            reference: None,
                            constant: Some(BinaryConstant { size: mode, value: n }),
                        }]);
                    }
                },
                crate::parser::NodeType::String(some_str) => {
                    let ghost sv = some_str@;
                    let mut j: usize = 0;
                    while j < some_str.len()
                        invariant
                            j <= sv.len(),
                            some_str@ == sv,
                            units.deep_view() =~= pre + Seq::new(j as nat, |m: int| UnitView {
                                reference: None,
                                constant: Some(BinaryConstant {
                                    size: mode,
                                    value: (sv[m] as u32) as i64,
                                }),
                            }),
                        decreases sv.len() - j,
                    {
                        let ghost upre = units.deep_view();
                        units.push(BinaryUnit {
                            reference: None,
                            constant: Some(BinaryConstant {
                                size: mode,
                                value: (some_str[j] as u32) as i64,
                            }),
                        });
                        j = j + 1;
                        proof {
                            assert(units.deep_view() =~= upre.push(UnitView {
                                reference: None,
                                constant: Some(BinaryConstant {
                                    size: mode,
                                    value: (sv[j - 1] as u32) as i64,
                                }),
                            }));
                            assert(units.deep_view() =~= pre + Seq::new(j as nat,
                                |m: int| UnitView {
                                    reference: None,
                                    constant: Some(BinaryConstant {
                                        size: mode,
                                        value: (sv[m] as u32) as i64,
                                    }),
                                }));
                        }
                    }
                    proof {
                        assert(units.deep_view() =~= pre + Seq::new(sv.len(),
                            |m: int| UnitView {
                                reference: None,
                                constant: Some(BinaryConstant {
                                    size: mode,
                                    value: (sv[m] as u32) as i64,
                                }),
                            }));
                    }
                },
                _ => {
                    return Err(GenError::UnexpectedNode);
                },
            }
            i = i + 1;
            proof {
                match spec_units_of_children(chv, i as nat, mode) {
                    Ok(us) => {
                        match spec_units_of_child(chv[i - 1], mode) {
                            Ok(added) => {
                                assert(pre + (added + us) =~= units.deep_view() + us);
                            },
                            Err(e) => {},
                        }
                    },
                    Err(e) => {},
                }
            }
        }
        proof {
            match spec_units_of_children(chv, chv.len(), mode) {
                Ok(us) => {
                    assert(units.deep_view() + us =~= units.deep_view());
                },
                Err(e) => {},
            }
        }
        let ghost old_secs = self.sections.deep_view();
        let ghost unitsv = units.deep_view();
        let mut sec = self.sections.remove(k);
        let ghost secv = sec.deep_view();
        let mut units2 = units;
        sec.binary_data.append(&mut units2);
        sec.binary_section = true;
        proof {
            assert(sec.deep_view().binary_data =~= secv.binary_data + unitsv);
        }
        let ghost sec2v = sec.deep_view();
        self.sections.insert(k, sec);
        proof {
            assert forall|m: int| 0 <= m < self.sections.deep_view().len() implies
                self.sections.deep_view()[m] == old_secs.update(k as int, sec2v)[m] by {
                if m < k {
                } else if m == k {
                } else {
                }
            }
            assert(self.sections.deep_view() =~= old_secs.update(k as int, sec2v));
        }
        Ok(())
    }
}

/// The directive names are pairwise distinct.
proof fn lemma_directive_names()
    ensures
        "section"@.len() == 7,
        "define"@.len() == 6,
        "db"@.len() == 2,
        "dw"@.len() == 2,
        "dd"@.len() == 2,
        "resb"@.len() == 4,
        "data"@.len() == 4,
        "db"@ != "dw"@,
        "db"@ != "dd"@,
        "dw"@ != "dd"@,
        "resb"@ != "data"@,
{
    reveal_strlit("section");
    reveal_strlit("define");
    reveal_strlit("db");
    reveal_strlit("dw");
    reveal_strlit("dd");
    reveal_strlit("resb");
    reveal_strlit("data");
    assert("db"@[1] != "dw"@[1]);
    assert("db"@[1] != "dd"@[1]);
    assert("dw"@[1] != "dd"@[1]);
    assert("resb"@[0] != "data"@[0]);
}

impl ObjectFormat {
    /// Runs one compiler directive against the object.
    #[verifier::rlimit(100)]
    pub fn do_compiler_instruction(
        &mut self,
        name: &[char],
        children: &Vec<crate::parser::ParserNode>,
    ) -> (r: Result<(), GenError>)
        ensures
            match spec_apply_directive(obj_state(*old(self)), name@, children.deep_view(),
                floats_view(old(self).float_values@), files_view(old(self).data_files@)) {
                Ok(st2) => r is Ok && obj_state(*final(self)) == st2
                    && final(self).float_values == old(self).float_values
                    && final(self).data_files == old(self).data_files,
                Err(e) => r is Err && r->Err_0.deep_view() == e && *final(self) == *old(self),
            },
    {
        proof {
            if children@.len() > 0 {
                assert(children.deep_view()[0] == children@[0].deep_view());
            }
        }
        if crate::text::eq_str(name, "section") {
            if children.len() == 0 {
                return Err(GenError::MissingArgument);
            }
            match &children[0].node_type {
                crate::parser::NodeType::String(secname) => {
                    let exists_already = find_section_idx(&self.sections,
                        secname.as_slice()).is_some();
                    let ghost old_secs = self.sections.deep_view();
                    self.current_section = crate::text::clone_chars(secname);
                    if !exists_already {
                        let mut sec = SectionData::new();
                        sec.name = crate::text::clone_chars(secname);
                        let ghost sv = sec.deep_view();
                        self.sections.push(sec);
                        self.header.sections_length = self.header.sections_length.wrapping_add(1);
                        proof {
                            assert(self.sections.deep_view() =~= old_secs.push(sv));
                            assert(sv.instructions =~= Seq::<InstrView>::empty());
                            assert(sv.labels =~= Seq::<LabelView>::empty());
                            assert(sv.binary_data =~= Seq::<UnitView>::empty());
                        }
                    }
                    Ok(())
                },
                _ => Err(GenError::WrongArgument),
            }
        } else if crate::text::eq_str(name, "define") {
            if children.len() < 2 {
                return Err(GenError::MissingArgument);
            }
            match &children[0].node_type {
                crate::parser::NodeType::Identifier(dname) => {
                    proof {
                        assert(children.deep_view()[1] == children@[1].deep_view());
                    }
                    let data = &children[1];
                    let is_expr = match &data.node_type {
                        crate::parser::NodeType::Expression(_) => true,
                        _ => false,
                    };
                    let ghost old_defs = defines_view(self.defines@);
                    if is_expr {
                        let v = eval_expr(&self.defines, data, 0)?;
                        let nd = crate::parser::ParserNode::leaf(
                            crate::parser::NodeType::ConstInteger(v));
                        let ghost ndv = nd.deep_view();
                        self.defines.push((crate::text::clone_chars(dname), nd));
                        proof {
                            assert(defines_view(self.defines@)
                                =~= old_defs.push((dname@, ndv)));
                        }
                    } else {
                        let nd = data.clone();
                        let ghost ndv = nd.deep_view();
                        self.defines.push((crate::text::clone_chars(dname), nd));
                        proof {
                            assert(defines_view(self.defines@)
                                =~= old_defs.push((dname@, ndv)));
                        }
                    }
                    Ok(())
                },
                _ => Err(GenError::WrongArgument),
            }
        } else if crate::text::eq_str(name, "db") {
            self.data_directive(children, ConstantSize::Byte)
        } else if crate::text::eq_str(name, "dw") {
            self.data_directive(children, ConstantSize::Word)
        } else if crate::text::eq_str(name, "dd") {
            self.data_directive(children, ConstantSize::DoubleWord)
        } else if crate::text::eq_str(name, "resb") {
            self.resb_directive(children)
        } else if crate::text::eq_str(name, "data") {
            self.data_file_directive(children)
        } else {
            Err(GenError::BadDirective { name: vstd::slice::slice_to_vec(name) })
        }
    }

    /// Appends the zero bytes of one `resb` directive.
    #[verifier::loop_isolation(false)]
    fn resb_directive(&mut self, children: &Vec<crate::parser::ParserNode>) -> (r: Result<
        (),
        GenError,
    >)
        ensures
            match spec_apply_directive(obj_state(*old(self)), "resb"@, children.deep_view(),
                floats_view(old(self).float_values@), files_view(old(self).data_files@)) {
                Ok(st2) => r is Ok && obj_state(*final(self)) == st2
                    && final(self).float_values == old(self).float_values
                    && final(self).data_files == old(self).data_files,
                Err(e) => r is Err && r->Err_0.deep_view() == e && *final(self) == *old(self),
            },
    {
        proof {
            lemma_directive_names();
        }
        let k = match find_section_idx(&self.sections, self.current_section.as_slice()) {
            Some(k) => k,
            None => {
                return Err(GenError::NoSection { name: crate::text::clone_chars(&self.current_section) });
            },
        };
        proof {
            lemma_find_section(self.sections.deep_view(), self.current_section@);
        }
        if self.sections[k].instructions.len() != 0 {
            return Err(GenError::MixedContent { name: crate::text::clone_chars(&self.current_section) });
        }
        if children.len() == 0 {
            return Err(GenError::MissingArgument);
        }
        let mut units: Vec<BinaryUnit> = Vec::new();
        proof {
            assert(units.deep_view() =~= Seq::<UnitView>::empty());
        }
        proof {
            assert(children.deep_view()[0] == children@[0].deep_view());
        }
        let ghost zero_unit = UnitView {
            reference: None,
            constant: Some(BinaryConstant { size: ConstantSize::Byte, value: 0 }),
        };
        if let crate::parser::NodeType::ConstInteger(n) = &children[0].node_type {
            let n = *n;
            if n > 0 {
                let mut j: i64 = 0;
                while j < n
                    invariant
                        0 <= j <= n,
                        units.deep_view() =~= Seq::new(j as nat, |m: int| zero_unit),
                    decreases n - j,
                {
                    let ghost upre = units.deep_view();
                    units.push(BinaryUnit {
                        reference: None,
                        constant: Some(BinaryConstant { size: ConstantSize::Byte, value: 0 }),
                    });
                    j = j + 1;
                    proof {
                        assert(units.deep_view() =~= upre.push(zero_unit));
                        assert(units.deep_view() =~= Seq::new(j as nat, |m: int| zero_unit));
                    }
                }
            }
        }
        let ghost old_secs = self.sections.deep_view();
        let ghost unitsv = units.deep_view();
        let mut sec = self.sections.remove(k);
        let ghost secv = sec.deep_view();
        let mut units2 = units;
        sec.binary_data.append(&mut units2);
        sec.binary_section = true;
        proof {
            assert(sec.deep_view().binary_data =~= secv.binary_data + unitsv);
        }
        let ghost sec2v = sec.deep_view();
        self.sections.insert(k, sec);
        proof {
            assert forall|m: int| 0 <= m < self.sections.deep_view().len() implies
                self.sections.deep_view()[m] == old_secs.update(k as int, sec2v)[m] by {
                if m < k {
                } else if m == k {
                } else {
                }
            }
            assert(self.sections.deep_view() =~= old_secs.update(k as int, sec2v));
        }
        Ok(())
    }

    /// Appends the supplied bytes of one `data` directive.
    #[verifier::loop_isolation(false)]
    fn data_file_directive(&mut self, children: &Vec<crate::parser::ParserNode>) -> (r: Result<
        (),
        GenError,
    >)
        ensures
            match spec_apply_directive(obj_state(*old(self)), "data"@, children.deep_view(),
                floats_view(old(self).float_values@), files_view(old(self).data_files@)) {
                Ok(st2) => r is Ok && obj_state(*final(self)) == st2
                    && final(self).float_values == old(self).float_values
                    && final(self).data_files == old(self).data_files,
                Err(e) => r is Err && r->Err_0.deep_view() == e && *final(self) == *old(self),
            },
    {
        proof {
            lemma_directive_names();
        }
        let k = match find_section_idx(&self.sections, self.current_section.as_slice()) {
            Some(k) => k,
            None => {
                return Err(GenError::NoSection { name: crate::text::clone_chars(&self.current_section) });
            },
        };
        proof {
            lemma_find_section(self.sections.deep_view(), self.current_section@);
        }
        if !self.sections[k].binary_section || self.sections[k].instructions.len() != 0 {
            return Err(GenError::MixedContent { name: crate::text::clone_chars(&self.current_section) });
        }
        if children.len() == 0 {
            return Err(GenError::MissingArgument);
        }
        proof {
            assert(children.deep_view()[0] == children@[0].deep_view());
        }
        let path = match &children[0].node_type {
            crate::parser::NodeType::String(path) => path,
            _ => {
                return Err(GenError::WrongArgument);
            },
        };
        let content = match file_find(&self.data_files, path.as_slice()) {
            Some(c) => c,
            None => {
                return Err(GenError::MissingData { path: crate::text::clone_chars(path) });
            },
        };
        let ghost cv = content@;
        let mut units: Vec<BinaryUnit> = Vec::new();
        proof {
            assert(units.deep_view() =~= Seq::<UnitView>::empty());
        }
        let mut j: usize = 0;
        while j < content.len()
            invariant
                j <= cv.len(),
                content@ == cv,
                units.deep_view() =~= Seq::new(j as nat, |m: int| UnitView {
                    reference: None,
                    constant: Some(BinaryConstant {
                        size: ConstantSize::Byte,
                        value: cv[m] as i64,
                    }),
                }),
            decreases cv.len() - j,
        {
            let ghost upre = units.deep_view();
            units.push(BinaryUnit {
                reference: None,
                constant: Some(BinaryConstant { size: ConstantSize::Byte,
                    value: content[j] as i64 }),
            });
            j = j + 1;
            proof {
                assert(units.deep_view() =~= upre.push(UnitView {
                    reference: None,
                    constant: Some(BinaryConstant {
                        size: ConstantSize::Byte,
                        value: cv[j - 1] as i64,
                    }),
                }));
                assert(units.deep_view() =~= Seq::new(j as nat, |m: int| UnitView {
                    reference: None,
                    constant: Some(BinaryConstant {
                        size: ConstantSize::Byte,
                        value: cv[m] as i64,
                    }),
                }));
            }
        }
        let ghost old_secs = self.sections.deep_view();
        let ghost unitsv = units.deep_view();
        let mut sec = self.sections.remove(k);
        let ghost secv = sec.deep_view();
        let mut units2 = units;
        sec.binary_data.append(&mut units2);
        proof {
            assert(sec.deep_view().binary_data =~= secv.binary_data + unitsv);
        }
        let ghost sec2v = sec.deep_view();
        self.sections.insert(k, sec);
        proof {
            assert forall|m: int| 0 <= m < self.sections.deep_view().len() implies
                self.sections.deep_view()[m] == old_secs.update(k as int, sec2v)[m] by {
                if m < k {
                } else if m == k {
                } else {
                }
            }
            assert(self.sections.deep_view() =~= old_secs.update(k as int, sec2v));
        }
        Ok(())
    }

    /// Lowers a whole program node into the object: directives, statements
    /// and labels in source order.
    #[verifier::loop_isolation(false)]
    pub fn load_parser_node(&mut self, node: &crate::parser::ParserNode) -> (r: Result<
        (),
        GenError,
    >)
        ensures
            match spec_load_program(obj_state(*old(self)), node.deep_view(),
                floats_view(old(self).float_values@), files_view(old(self).data_files@)) {
                Ok(st2) => r is Ok && obj_state(*final(self)) == st2
                    && final(self).float_values == old(self).float_values
                    && final(self).data_files == old(self).data_files,
                Err(e) => r is Err && r->Err_0.deep_view() == e,
            },
    {
        match &node.node_type {
            crate::parser::NodeType::Program => {},
            _ => {
                return Err(GenError::NotProgram);
            },
        }
        let ghost st0 = obj_state(*self);
        let ghost nodesv = node.deep_view().children;
        let ghost flv = floats_view(self.float_values@);
        let ghost fiv = files_view(self.data_files@);
        let mut current_label: Vec<char> = Vec::new();
        let mut i: usize = 0;
        proof {
            assert(current_label@ =~= Seq::<char>::empty());
            assert forall|m: int| 0 <= m < nodesv.len() implies
                nodesv[m] == node.children.deep_view()[m] by {}
            assert(nodesv =~= node.children.deep_view());
        }
        while i < node.children.len()
            invariant
                i <= nodesv.len(),
                nodesv.len() == node.children@.len(),
                flv == floats_view(self.float_values@),
                fiv == files_view(self.data_files@),
                self.float_values == old(self).float_values,
                self.data_files == old(self).data_files,
                spec_gen_load(st0, nodesv, 0, Seq::empty(), flv, fiv)
                    == spec_gen_load(obj_state(*self), nodesv, i as nat, current_label@, flv,
                    fiv),
            decreases nodesv.len() - i,
        {
            let child = &node.children[i];
            let ghost st_pre = obj_state(*self);
            let ghost lbl_pre = current_label@;
            proof {
                assert(child.deep_view() == nodesv[i as int]);
                crate::parser::lemma_node_children(*child);
            }
            match &child.node_type {
                crate::parser::NodeType::CompilerInstruction(iname) => {
                    match self.do_compiler_instruction(iname.as_slice(), &child.children) {
                        Ok(()) => {
                            proof {
                                assert(spec_gen_step(st_pre, nodesv[i as int], lbl_pre, flv, fiv)
                                    == Ok::<(GenState, Seq<char>), GenErrView>(
                                        (obj_state(*self), lbl_pre)));
                            }
                        },
                        Err(e) => {
                            return Err(e);
                        },
                    }
                },
                crate::parser::NodeType::Instruction(iname) => {
                    match self.process_instruction(iname.as_slice(), &child.children,
                        current_label.as_slice()) {
                        Ok(()) => {
                            proof {
                                assert(spec_gen_step(st_pre, nodesv[i as int], lbl_pre, flv, fiv)
                                    == Ok::<(GenState, Seq<char>), GenErrView>(
                                        (obj_state(*self), lbl_pre)));
                            }
                        },
                        Err(e) => {
                            return Err(e);
                        },
                    }
                },
                crate::parser::NodeType::Label(lname) => {
                    match self.add_label(lname) {
                        Ok(()) => {},
                        Err(e) => {
                            return Err(e);
                        },
                    }
                    if !chars_contain(lname.as_slice(), '@') {
                        current_label = crate::text::clone_chars(lname);
                    }
                    proof {
                        assert(spec_gen_step(st_pre, nodesv[i as int], lbl_pre, flv, fiv)
                            == Ok::<(GenState, Seq<char>), GenErrView>(
                                (obj_state(*self), current_label@)));
                    }
                },
                _ => {
                    return Err(GenError::UnexpectedNode);
                },
            }
            i = i + 1;
        }
        Ok(())
    }
}

/// Whether a character occurs in a slice.
fn chars_contain(s: &[char], c: char) -> (r: bool)
    ensures
        r == s@.contains(c),
{
    let mut i: usize = 0;
    while i < s.len()
        invariant
            i <= s@.len(),
            forall|m: int| 0 <= m < i ==> s@[m] != c,
        decreases s@.len() - i,
    {
        if s[i] == c {
            return true;
        }
        i = i + 1;
    }
    proof {
        if s@.contains(c) {
            let m = choose|m: int| 0 <= m < s@.len() && s@[m] == c;
        }
    }
    false
}

} // verus!
