//! The linker: merges objects section by section, lays the sections out
//! per a link structure with alignment, resolves label references to byte
//! addresses, and emits the final image.

use vstd::prelude::*;
use crate::objgen::{
    ObjectFormat, SectionData, SectionView, InstrView, UnitView, LabelView, ConstantSize,
    spec_find_section, lemma_find_section, spec_value_bytes, label_name_taken,
};
use crate::symbols::{Instructions, ArgumentTypes, spec_instruction, spec_extended_opcode,
    spec_instruction_size};
use vstd::bytes::{spec_u16_to_le_bytes, u16_to_le_bytes};

verus! {

/// Why linking failed; the name-carrying variants say which symbol or
/// section was at fault.
#[derive(Debug)]
pub enum LinkError {
    /// Two sections of one name with different modes, or clashing labels.
    BadMerge,
    /// A label that no loaded section declares.
    UndefinedReference { symbol: Vec<char> },
    /// A section used but not declared by the link structure, or declared
    /// but absent from the loaded symbols.
    UndefinedSection { name: Vec<char> },
    /// An opcode that names no instruction of the registry.
    UnknownOpcode,
    /// A link section whose alignment is zero.
    BadAlignment,
    /// A binary unit carrying neither a constant nor a reference.
    EmptyUnit,
    /// A size or offset that exceeds what the machine can address.
    TooLarge,
}

/// One declaration of the link structure: a section name and its
/// alignment in bytes.
#[derive(Debug)]
pub struct LinkStructureSection {
    pub name: Vec<char>,
    pub alignment: u64,
}

pub ghost struct LinkSecView {
    pub name: Seq<char>,
    pub alignment: u64,
}

impl DeepView for LinkStructureSection {
    type V = LinkSecView;

    open spec fn deep_view(&self) -> LinkSecView {
        LinkSecView { name: self.name@, alignment: self.alignment }
    }
}

/// The ordered link structure: section names with their alignments.
#[derive(Debug)]
pub struct LinkStructure {
    pub sections: Vec<LinkStructureSection>,
}

impl DeepView for LinkStructure {
    type V = Seq<LinkSecView>;

    open spec fn deep_view(&self) -> Seq<LinkSecView> {
        self.sections.deep_view()
    }
}

/// First link section with a name.
pub open spec fn spec_find_link(ls: Seq<LinkSecView>, name: Seq<char>) -> Option<int>
    decreases ls.len(),
{
    if ls.len() == 0 {
        None
    } else if ls[0].name == name {
        Some(0int)
    } else {
        match spec_find_link(ls.drop_first(), name) {
            Some(k) => Some(k + 1),
            None => None,
        }
    }
}

pub proof fn lemma_find_link(ls: Seq<LinkSecView>, name: Seq<char>)
    ensures
        match spec_find_link(ls, name) {
            Some(k) => 0 <= k < ls.len() && ls[k].name == name,
            None => forall|m: int| 0 <= m < ls.len() ==> (#[trigger] ls[m]).name != name,
        },
    decreases ls.len(),
{
    if ls.len() > 0 && ls[0].name != name {
        lemma_find_link(ls.drop_first(), name);
        match spec_find_link(ls.drop_first(), name) {
            Some(k) => {
                assert(ls.drop_first()[k] == ls[k + 1]);
            },
            None => {
                assert forall|m: int| 0 <= m < ls.len() implies (#[trigger] ls[m]).name != name
                    by {
                    if m > 0 {
                        assert(ls.drop_first()[m - 1] == ls[m]);
                    }
                }
            },
        }
    }
}

impl LinkStructure {
    /// The default structure: `text`, `data` and `rodata` in that order,
    /// each aligned to 0x100 bytes.
    pub fn new() -> (r: Self)
        ensures
            r.deep_view().len() == 3,
            r.deep_view()[0].name == "text"@ && r.deep_view()[0].alignment == 0x100,
            r.deep_view()[1].name == "data"@ && r.deep_view()[1].alignment == 0x100,
            r.deep_view()[2].name == "rodata"@ && r.deep_view()[2].alignment == 0x100,
    {
        let mut sections: Vec<LinkStructureSection> = Vec::new();
        sections.push(LinkStructureSection {
            name: crate::text::chars_of("text"),
            alignment: 0x100,
        });
        sections.push(LinkStructureSection {
            name: crate::text::chars_of("data"),
            alignment: 0x100,
        });
        sections.push(LinkStructureSection {
            name: crate::text::chars_of("rodata"),
            alignment: 0x100,
        });
        LinkStructure { sections }
    }

    /// Builds a structure from plain declarations, in order.
    pub fn from_sections(sections: Vec<LinkStructureSection>) -> (r: Self)
        ensures
            r.deep_view() == sections.deep_view(),
    {
        LinkStructure { sections }
    }

    /// Fetches a declaration by name.
    pub fn get_section(&self, name: &[char]) -> (r: Option<&LinkStructureSection>)
        ensures
            match spec_find_link(self.deep_view(), name@) {
                Some(k) => r is Some && r->Some_0.deep_view() == self.deep_view()[k],
                None => r is None,
            },
    {
        proof {
            lemma_find_link(self.deep_view(), name@);
        }
        match self.get_section_index(name) {
            Some(k) => Some(&self.sections[k]),
            None => None,
        }
    }

    /// Finds the position of a declaration by name.
    pub fn get_section_index(&self, name: &[char]) -> (r: Option<usize>)
        ensures
            match spec_find_link(self.deep_view(), name@) {
                Some(k) => r is Some && r->Some_0 == k,
                None => r is None,
            },
    {
        proof {
            lemma_find_link(self.deep_view(), name@);
        }
        let mut i: usize = 0;
        while i < self.sections.len()
            invariant
                i <= self.sections@.len(),
                forall|m: int| 0 <= m < i ==> (#[trigger] self.deep_view()[m]).name != name@,
            decreases self.sections@.len() - i,
        {
            if crate::text::eq_chars(self.sections[i].name.as_slice(), name) {
                proof {
                    lemma_find_link_witness(self.deep_view(), name@, i as nat);
                }
                return Some(i);
            }
            i = i + 1;
        }
        None
    }
}

proof fn lemma_find_link_witness(ls: Seq<LinkSecView>, name: Seq<char>, k: nat)
    requires
        k < ls.len(),
        ls[k as int].name == name,
        forall|m: int| 0 <= m < k ==> (#[trigger] ls[m]).name != name,
    ensures
        spec_find_link(ls, name) == Some(k as int),
    decreases ls.len(),
{
    if ls.len() > 0 && ls[0].name != name {
        assert forall|m: int| 0 <= m < k - 1 implies
            (#[trigger] ls.drop_first()[m]).name != name by {
            assert(ls.drop_first()[m] == ls[m + 1]);
        }
        lemma_find_link_witness(ls.drop_first(), name, (k - 1) as nat);
    }
}

// ---------------------------------------------------------------------------
// Sizes and layout.

/// The encoded size of one instruction of the object model, by its opcode's
/// registry row; an unknown opcode has no size.
pub open spec fn spec_instr_enc_size(i: InstrView) -> Option<nat> {
    match spec_instruction(i.opcode) {
        Some(row) => Some(spec_instruction_size(i.opcode, row.1)),
        None => None,
    }
}

/// The summed encoded size of a section's contents, when every entry has
/// one: instruction sizes from the registry, unit sizes from their width.
pub open spec fn spec_content_size(s: SectionView, n: nat) -> Option<nat>
    decreases n,
{
    if n == 0 {
        Some(0)
    } else if s.binary_section {
        if n > s.binary_data.len() {
            None
        } else {
            match (spec_content_size(s, (n - 1) as nat),
                crate::objgen::spec_unit_size(s.binary_data[n - 1])) {
                (Some(a), Some(b)) => Some(a + b),
                _ => None,
            }
        }
    } else {
        if n > s.instructions.len() {
            None
        } else {
            match (spec_content_size(s, (n - 1) as nat),
                spec_instr_enc_size(s.instructions[n - 1])) {
                (Some(a), Some(b)) => Some(a + b),
                _ => None,
            }
        }
    }
}

/// A section's whole encoded size.
pub open spec fn spec_section_size(s: SectionView) -> Option<nat> {
    if s.binary_section {
        spec_content_size(s, s.binary_data.len())
    } else {
        spec_content_size(s, s.instructions.len())
    }
}

/// The least multiple of `a` that is at least `n`.
pub open spec fn align_up(n: nat, a: nat) -> nat
    recommends
        a > 0,
{
    if n % a == 0 {
        n
    } else {
        (n / a + 1) * a
    }
}

/// Alignment always lands on a multiple, at or past the start.
pub proof fn lemma_align_up(n: nat, a: nat)
    requires
        a > 0,
    ensures
        align_up(n, a) % a == 0,
        n <= align_up(n, a) < n + a,
    decreases 0nat,
{
    vstd::arithmetic::div_mod::lemma_fundamental_div_mod(n as int, a as int);
    if n % a == 0 {
    } else {
        let d = n / a;
        let m = n % a;
        assert((n as int) == (a as int) * ((n as int) / (a as int)) + (n as int) % (a as int));
        assert(d == (n as int) / (a as int));
        assert(m == (n as int) % (a as int));
        assert(d * a == a * d) by (nonlinear_arith);
        assert(n == d * a + m);
        assert((d + 1) * a == d * a + a) by (nonlinear_arith);
        assert(align_up(n, a) == d * a + a);
        assert(n <= align_up(n, a) < n + a);
        vstd::arithmetic::div_mod::lemma_mod_multiples_basic(d as int + 1, a as int);
    }
}

/// `align_up` in machine arithmetic: `None` when the multiple does not
/// fit in 64 bits.
pub open spec fn align_up_u64(n: u64, a: u64) -> Option<u64>
    recommends
        a > 0,
{
    if n % a == 0 {
        Some(n)
    } else {
        match (n / a).checked_add(1) {
            Some(d) => d.checked_mul(a),
            None => None,
        }
    }
}

/// Machine alignment agrees with the mathematical one when it fits.
pub proof fn lemma_align_up_u64(n: u64, a: u64)
    requires
        a > 0,
    ensures
        align_up_u64(n, a) matches Some(x) ==> x == align_up(n as nat, a as nat)
            && x % a == 0 && n <= x < n + a,
{
    lemma_align_up(n as nat, a as nat);
    if align_up_u64(n, a) is Some {
        let x = align_up_u64(n, a)->Some_0;
        if n % a == 0 {
        } else {
            let d = n / a;
            assert(x == (d + 1) * a);
        }
    }
}

fn align_up_exec(n: u64, a: u64) -> (r: Option<u64>)
    requires
        a > 0,
    ensures
        r == align_up_u64(n, a),
{
    if n % a == 0 {
        Some(n)
    } else {
        match (n / a).checked_add(1) {
            Some(d) => d.checked_mul(a),
            None => None,
        }
    }
}

// ---------------------------------------------------------------------------
// Section sizes and label offsets.

impl SectionData {
    /// The summed encoded size of this section's contents.
    #[verifier::loop_isolation(false)]
    pub fn get_binary_size(&self) -> (r: Result<u64, LinkError>)
        ensures
            match spec_section_size(self.deep_view()) {
                Some(n) => if n <= u64::MAX {
                    r is Ok && r->Ok_0 == n
                } else {
                    r is Err && r->Err_0 == LinkError::TooLarge
                },
                None => r is Err && (r->Err_0 == LinkError::UnknownOpcode
                    || r->Err_0 == LinkError::EmptyUnit || r->Err_0 == LinkError::TooLarge),
            },
    {
        let count = if self.binary_section {
            self.binary_data.len()
        } else {
            self.instructions.len()
        };
        self.content_size(count)
    }

    /// The summed encoded size of this section's first `count` entries.
    #[verifier::loop_isolation(false)]
    fn content_size(&self, count: usize) -> (r: Result<u64, LinkError>)
        requires
            self.deep_view().binary_section ==> count <= self.deep_view().binary_data.len(),
            !self.deep_view().binary_section ==> count <= self.deep_view().instructions.len(),
        ensures
            match spec_content_size(self.deep_view(), count as nat) {
                Some(n) => if n <= u64::MAX {
                    r is Ok && r->Ok_0 == n
                } else {
                    r is Err && r->Err_0 == LinkError::TooLarge
                },
                None => r is Err && (r->Err_0 == LinkError::UnknownOpcode
                    || r->Err_0 == LinkError::EmptyUnit || r->Err_0 == LinkError::TooLarge),
            },
    {
        let instructions_table = Instructions::new();
        let mut total: u64 = 0;
        let mut i: usize = 0;
        while i < count
            invariant
                i <= count,
                spec_content_size(self.deep_view(), i as nat) == Some(total as nat),
            decreases count - i,
        {
            let step: u64;
            if self.binary_section {
                proof {
                    assert(self.binary_data.deep_view()[i as int]
                        == self.binary_data@[i as int].deep_view());
                }
                match self.binary_data[i].get_size() {
                    Some(n) => {
                        step = n as u64;
                    },
                    None => {
                        proof {
                            if spec_content_size(self.deep_view(), count as nat) is Some {
                                lemma_content_size_mono(self.deep_view(), (i + 1) as nat,
                                    count as nat);
                            }
                        }
                        return Err(LinkError::EmptyUnit);
                    },
                }
            } else {
                proof {
                    assert(self.instructions.deep_view()[i as int]
                        == self.instructions@[i as int].deep_view());
                }
                match instructions_table.get_instruction(self.instructions[i].opcode) {
                    Some(instr) => {
                        proof {
                            crate::symbols::lemma_args_size_small(instr.args@);
                        }
                        step = instr.get_size() as u64;
                    },
                    None => {
                        proof {
                            if spec_content_size(self.deep_view(), count as nat) is Some {
                                lemma_content_size_mono(self.deep_view(), (i + 1) as nat,
                                    count as nat);
                            }
                        }
                        return Err(LinkError::UnknownOpcode);
                    },
                }
            }
            match total.checked_add(step) {
                Some(t) => {
                    total = t;
                },
                None => {
                    proof {
                        if spec_content_size(self.deep_view(), count as nat) is Some {
                            lemma_content_size_mono(self.deep_view(), (i + 1) as nat,
                                count as nat);
                        }
                    }
                    return Err(LinkError::TooLarge);
                },
            }
            i = i + 1;
        }
        Ok(total)
    }

    /// The byte offset of the entry at `index` within this section's
    /// encoding: the summed size of everything before it.
    pub fn get_binary_position(&self, index: u64) -> (r: Result<u64, LinkError>)
        ensures
            ({
                let cnt = spec_clipped_count(self.deep_view(), index);
                match spec_content_size(self.deep_view(), cnt) {
                    Some(n) => if n <= u64::MAX {
                        r is Ok && r->Ok_0 == n
                    } else {
                        r is Err && r->Err_0 == LinkError::TooLarge
                    },
                    None => r is Err && (r->Err_0 == LinkError::UnknownOpcode
                        || r->Err_0 == LinkError::EmptyUnit
                        || r->Err_0 == LinkError::TooLarge),
                }
            }),
    {
        let count = if self.binary_section {
            self.binary_data.len()
        } else {
            self.instructions.len()
        };
        let clipped: usize = if index < count as u64 {
            index as usize
        } else {
            count
        };
        proof {
            assert(count as nat == (if self.deep_view().binary_section {
                self.deep_view().binary_data.len()
            } else {
                self.deep_view().instructions.len()
            }));
            assert(clipped as nat == spec_clipped_count(self.deep_view(), index));
        }
        self.content_size(clipped)
    }

    /// The byte offset a label's pointer stands for: the summed size of
    /// the entries before it.
    pub fn get_label_binary_offset(&self, label_name: &[char]) -> (r: Result<u64, LinkError>)
        ensures
            match spec_label_find(self.deep_view().labels, label_name@) {
                None => r is Err
                    && (r->Err_0 matches LinkError::UndefinedReference { symbol }
                    && symbol@ == label_name@),
                Some(k) => ({
                    let cnt = spec_clipped_count(self.deep_view(),
                        self.deep_view().labels[k].ptr);
                    match spec_content_size(self.deep_view(), cnt) {
                        Some(n) => if n <= u64::MAX {
                            r is Ok && r->Ok_0 == n
                        } else {
                            r is Err && r->Err_0 == LinkError::TooLarge
                        },
                        None => r is Err && (r->Err_0 == LinkError::UnknownOpcode
                            || r->Err_0 == LinkError::EmptyUnit
                            || r->Err_0 == LinkError::TooLarge),
                    }
                }),
            },
    {
        let mut i: usize = 0;
        let ghost lv = self.labels.deep_view();
        while i < self.labels.len()
            invariant
                i <= lv.len(),
                lv == self.labels.deep_view(),
                forall|m: int| 0 <= m < i ==> (#[trigger] lv[m]).name != label_name@,
            decreases lv.len() - i,
        {
            if crate::text::eq_chars(self.labels[i].name.as_slice(), label_name) {
                proof {
                    lemma_label_find_witness(lv, label_name@, i as nat);
                }
                return self.get_binary_position(self.labels[i].ptr);
            }
            i = i + 1;
        }
        proof {
            lemma_label_find_none(lv, label_name@);
        }
        Err(LinkError::UndefinedReference { symbol: vstd::slice::slice_to_vec(label_name) })
    }
}

/// How many entries sit before `index`, clipped to the section's length.
pub open spec fn spec_clipped_count(s: SectionView, index: u64) -> nat {
    let count: nat = if s.binary_section {
        s.binary_data.len()
    } else {
        s.instructions.len()
    };
    if (index as nat) < count {
        index as nat
    } else {
        count
    }
}

/// The first label of a section with a name.
pub open spec fn spec_label_find(ls: Seq<LabelView>, name: Seq<char>) -> Option<int>
    decreases ls.len(),
{
    if ls.len() == 0 {
        None
    } else if ls[0].name == name {
        Some(0int)
    } else {
        match spec_label_find(ls.drop_first(), name) {
            Some(k) => Some(k + 1),
            None => None,
        }
    }
}

proof fn lemma_label_find_witness(ls: Seq<LabelView>, name: Seq<char>, k: nat)
    requires
        k < ls.len(),
        ls[k as int].name == name,
        forall|m: int| 0 <= m < k ==> (#[trigger] ls[m]).name != name,
    ensures
        spec_label_find(ls, name) == Some(k as int),
    decreases ls.len(),
{
    if ls.len() > 0 && ls[0].name != name {
        assert forall|m: int| 0 <= m < k - 1 implies
            (#[trigger] ls.drop_first()[m]).name != name by {
            assert(ls.drop_first()[m] == ls[m + 1]);
        }
        lemma_label_find_witness(ls.drop_first(), name, (k - 1) as nat);
    }
}

proof fn lemma_label_find_none(ls: Seq<LabelView>, name: Seq<char>)
    requires
        forall|m: int| 0 <= m < ls.len() ==> (#[trigger] ls[m]).name != name,
    ensures
        spec_label_find(ls, name) is None,
    decreases ls.len(),
{
    if ls.len() > 0 {
        assert forall|m: int| 0 <= m < ls.len() - 1 implies
            (#[trigger] ls.drop_first()[m]).name != name by {
            assert(ls.drop_first()[m] == ls[m + 1]);
        }
        lemma_label_find_none(ls.drop_first(), name);
    }
}

/// A label's byte offset within its section, where the entry sizes before
/// it are all known.
pub open spec fn spec_label_offset(s: SectionView, name: Seq<char>) -> Option<nat> {
    match spec_label_find(s.labels, name) {
        None => None,
        Some(k) => spec_content_size(s, spec_clipped_count(s, s.labels[k].ptr)),
    }
}

/// A longer prefix of a section never has a size where a shorter one has
/// none, and sizes grow with the prefix.
proof fn lemma_content_size_mono(s: SectionView, n1: nat, n2: nat)
    requires
        n1 <= n2,
        spec_content_size(s, n2) is Some,
    ensures
        spec_content_size(s, n1) is Some,
        spec_content_size(s, n1)->Some_0 <= spec_content_size(s, n2)->Some_0,
    decreases n2,
{
    if n1 < n2 {
        lemma_content_size_mono(s, n1, (n2 - 1) as nat);
    }
}

// ---------------------------------------------------------------------------
// Merging.

/// The merge of two sections of one name: contents appended, the incoming
/// labels shifted by the length of the target's content list.  Sections of
/// different modes, or with clashing label names, cannot merge.
pub open spec fn spec_append_section(a: SectionView, b: SectionView) -> Option<SectionView> {
    if a.binary_section != b.binary_section {
        None
    } else {
        let shift: nat = if a.binary_section {
            a.binary_data.len()
        } else {
            a.instructions.len()
        };
        if exists|m: int| 0 <= m < b.labels.len()
            && label_name_taken(a.labels, (#[trigger] b.labels[m]).name) {
            None
        } else {
            Some(SectionView {
                name: a.name,
                instructions: a.instructions + b.instructions,
                binary_data: a.binary_data + b.binary_data,
                labels: a.labels + Seq::new(b.labels.len(), |m: int| LabelView {
                    name: b.labels[m].name,
                    ptr: b.labels[m].ptr.wrapping_add(shift as u64),
                }),
                binary_section: a.binary_section,
            })
        }
    }
}

impl SectionData {
    /// Merges another section of the same name into this one.
    #[verifier::loop_isolation(false)]
    pub fn append_other(&mut self, other: SectionData) -> (r: Result<(), LinkError>)
        ensures
            match spec_append_section(old(self).deep_view(), other.deep_view()) {
                Some(merged) => r is Ok && final(self).deep_view() == merged,
                None => r is Err && r->Err_0 == LinkError::BadMerge
                    && *final(self) == *old(self),
            },
    {
        if self.binary_section != other.binary_section {
            return Err(LinkError::BadMerge);
        }
        let shift: usize = if self.binary_section {
            self.binary_data.len()
        } else {
            self.instructions.len()
        };
        let ghost av = old(self).deep_view();
        let ghost bv = other.deep_view();
        let mut i: usize = 0;
        while i < other.labels.len()
            invariant
                i <= bv.labels.len(),
                bv == other.deep_view(),
                av == self.deep_view(),
                forall|m: int| 0 <= m < i
                    ==> !label_name_taken(av.labels, (#[trigger] bv.labels[m]).name),
            decreases bv.labels.len() - i,
        {
            proof {
                assert(bv.labels[i as int] == other.labels@[i as int].deep_view());
            }
            if crate::objgen::labels_contain(&self.labels, other.labels[i].name.as_slice()) {
                return Err(LinkError::BadMerge);
            }
            i = i + 1;
        }
        proof {
            if exists|m: int| 0 <= m < bv.labels.len()
                && label_name_taken(av.labels, (#[trigger] bv.labels[m]).name) {
                let m = choose|m: int| 0 <= m < bv.labels.len()
                    && label_name_taken(av.labels, (#[trigger] bv.labels[m]).name);
            }
        }
        let mut other2 = other;
        let mut incoming_instrs = other2.instructions;
        let mut incoming_units = other2.binary_data;
        let incoming_labels = other2.labels;
        self.instructions.append(&mut incoming_instrs);
        self.binary_data.append(&mut incoming_units);
        proof {
            let ai = av.instructions;
            let bi = bv.instructions;
            assert forall|m: int| 0 <= m < self.deep_view().instructions.len() implies
                self.deep_view().instructions[m] == (ai + bi)[m] by {
                if m < ai.len() {
                } else {
                }
            }
            assert(self.deep_view().instructions =~= ai + bi);
            let au = av.binary_data;
            let bu = bv.binary_data;
            assert forall|m: int| 0 <= m < self.deep_view().binary_data.len() implies
                self.deep_view().binary_data[m] == (au + bu)[m] by {
                if m < au.len() {
                } else {
                }
            }
            assert(self.deep_view().binary_data =~= au + bu);
        }
        let mut j: usize = 0;
        let ghost lpre = self.labels.deep_view();
        while j < incoming_labels.len()
            invariant
                j <= bv.labels.len(),
                incoming_labels.deep_view() == bv.labels,
                self.name@ == av.name,
                self.binary_section == av.binary_section,
                self.deep_view().instructions == av.instructions + bv.instructions,
                self.deep_view().binary_data == av.binary_data + bv.binary_data,
                lpre == av.labels,
                self.labels.deep_view() =~= lpre + Seq::new(j as nat, |m: int| LabelView {
                    name: bv.labels[m].name,
                    ptr: bv.labels[m].ptr.wrapping_add(shift as u64),
                }),
            decreases bv.labels.len() - j,
        {
            let ghost llpre = self.labels.deep_view();
            proof {
                assert(bv.labels[j as int] == incoming_labels@[j as int].deep_view());
            }
            let nm = crate::text::clone_chars(&incoming_labels[j].name);
            let p = incoming_labels[j].ptr.wrapping_add(shift as u64);
            self.labels.push(crate::objgen::ObjectLabelSymbol { name: nm, ptr: p });
            j = j + 1;
            proof {
                assert(self.labels.deep_view() =~= llpre.push(LabelView {
                    name: bv.labels[j - 1].name,
                    ptr: bv.labels[j - 1].ptr.wrapping_add(shift as u64),
                }));
                assert(self.labels.deep_view() =~= lpre + Seq::new(j as nat,
                    |m: int| LabelView {
                        name: bv.labels[m].name,
                        ptr: bv.labels[m].ptr.wrapping_add(shift as u64),
                    }));
            }
        }
        Ok(())
    }
}

/// The first section declaring a label.
pub open spec fn spec_find_labeled(ss: Seq<SectionView>, label: Seq<char>) -> Option<int>
    decreases ss.len(),
{
    if ss.len() == 0 {
        None
    } else if spec_label_find(ss[0].labels, label) is Some {
        Some(0int)
    } else {
        match spec_find_labeled(ss.drop_first(), label) {
            Some(k) => Some(k + 1),
            None => None,
        }
    }
}

pub proof fn lemma_find_labeled(ss: Seq<SectionView>, label: Seq<char>)
    ensures
        match spec_find_labeled(ss, label) {
            Some(k) => 0 <= k < ss.len() && spec_label_find(ss[k].labels, label) is Some,
            None => forall|m: int| 0 <= m < ss.len()
                ==> spec_label_find((#[trigger] ss[m]).labels, label) is None,
        },
    decreases ss.len(),
{
    if ss.len() > 0 && spec_label_find(ss[0].labels, label) is None {
        lemma_find_labeled(ss.drop_first(), label);
        match spec_find_labeled(ss.drop_first(), label) {
            Some(k) => {
                assert(ss.drop_first()[k] == ss[k + 1]);
            },
            None => {
                assert forall|m: int| 0 <= m < ss.len() implies
                    spec_label_find((#[trigger] ss[m]).labels, label) is None by {
                    if m > 0 {
                        assert(ss.drop_first()[m - 1] == ss[m]);
                    }
                }
            },
        }
    }
}

// ---------------------------------------------------------------------------
// The linker proper.

/// The loaded symbols after merging a stream of sections, one at a time:
/// a section of a known name merges into it, a new name is appended.
pub open spec fn spec_load_symbols(
    symbols: Seq<SectionView>,
    incoming: Seq<SectionView>,
    i: nat,
) -> Option<Seq<SectionView>>
    decreases incoming.len() - i,
    when i <= incoming.len()
{
    if i >= incoming.len() {
        Some(symbols)
    } else {
        let sec = incoming[i as int];
        match spec_find_section(symbols, sec.name) {
            Some(k) => match spec_append_section(symbols[k], sec) {
                Some(merged) => spec_load_symbols(symbols.update(k, merged), incoming, i + 1),
                None => None,
            },
            None => spec_load_symbols(symbols.push(sec), incoming, i + 1),
        }
    }
}

/// The summed sizes of the sections the link structure places before
/// index `j`.
pub open spec fn spec_offset_sum(
    links: Seq<LinkSecView>,
    symbols: Seq<SectionView>,
    j: nat,
) -> Option<nat>
    decreases j,
{
    if j == 0 {
        Some(0)
    } else {
        match (spec_offset_sum(links, symbols, (j - 1) as nat),
            spec_find_section(symbols, links[j - 1].name)) {
            (Some(acc), Some(k)) => match spec_section_size(symbols[k]) {
                Some(sz) => Some(acc + sz),
                None => None,
            },
            _ => None,
        }
    }
}

/// A section's byte offset in the image: the summed sizes of the sections
/// before it, rounded up to its alignment.
pub open spec fn spec_section_offset(
    links: Seq<LinkSecView>,
    symbols: Seq<SectionView>,
    name: Seq<char>,
) -> Option<nat> {
    match spec_find_link(links, name) {
        None => None,
        Some(j) => match spec_offset_sum(links, symbols, j as nat) {
            None => None,
            Some(sum) => {
                let a = links[j].alignment;
                if a == 0 {
                    None
                } else {
                    Some(align_up(sum, a as nat))
                }
            },
        },
    }
}

/// Every section offset the layout assigns is divisible by that section's
/// configured alignment.
pub proof fn lemma_section_offset_aligned(
    links: Seq<LinkSecView>,
    symbols: Seq<SectionView>,
    name: Seq<char>,
)
    ensures
        spec_section_offset(links, symbols, name) matches Some(off)
            ==> spec_find_link(links, name) matches Some(j)
                && links[j].alignment > 0
                && off % (links[j].alignment as nat) == 0,
{
    if spec_section_offset(links, symbols, name) is Some {
        let j = spec_find_link(links, name)->Some_0;
        let sum = spec_offset_sum(links, symbols, j as nat)->Some_0;
        lemma_align_up(sum, links[j].alignment as nat);
    }
}

/// The image pads each section with zeros up to its alignment: the padded
/// end the image construction uses is divisible by the section's
/// configured alignment.
pub proof fn lemma_padded_end_aligned(end: nat, alignment: u64)
    requires
        alignment > 0,
    ensures
        align_up(end, alignment as nat) % (alignment as nat) == 0,
        align_up(end, alignment as nat) >= end,
{
    lemma_align_up(end, alignment as nat);
}

/// The first constant of an instruction at an argument position.
pub open spec fn spec_const_find(cs: Seq<crate::objgen::Constant>, pos: u8) -> Option<int>
    decreases cs.len(),
{
    if cs.len() == 0 {
        None
    } else if cs[0].argument_pos == pos {
        Some(0int)
    } else {
        match spec_const_find(cs.drop_first(), pos) {
            Some(k) => Some(k + 1),
            None => None,
        }
    }
}

/// The first reference of an instruction at an argument position.
pub open spec fn spec_ref_find(rs: Seq<crate::objgen::RefView>, pos: u8) -> Option<int>
    decreases rs.len(),
{
    if rs.len() == 0 {
        None
    } else if rs[0].argument_pos == pos {
        Some(0int)
    } else {
        match spec_ref_find(rs.drop_first(), pos) {
            Some(k) => Some(k + 1),
            None => None,
        }
    }
}

/// The absolute byte address of a label: its section's offset plus its
/// offset within the section.
pub open spec fn spec_resolve(
    links: Seq<LinkSecView>,
    symbols: Seq<SectionView>,
    label: Seq<char>,
) -> Option<u64> {
    match spec_find_labeled(symbols, label) {
        None => None,
        Some(k) => match spec_label_offset(symbols[k], label) {
            None => None,
            Some(local) => match spec_section_offset(links, symbols, symbols[k].name) {
                None => None,
                Some(secoff) => if secoff + local <= u64::MAX {
                    Some((secoff + local) as u64)
                } else {
                    None
                },
            },
        },
    }
}

/// The bytes one argument position of an instruction contributes: a
/// constant's value, or a reference's resolved address, made relative to
/// the instruction's own address for a relative pointer, truncated to the
/// argument's width.  A position carrying nothing contributes nothing.
pub open spec fn spec_arg_emit(
    links: Seq<LinkSecView>,
    symbols: Seq<SectionView>,
    i: InstrView,
    args: Seq<ArgumentTypes>,
    pos: u8,
    start: u64,
) -> Option<Seq<u8>> {
    let picked: Option<(ConstantSize, i64)> = match spec_const_find(i.constants, pos) {
        Some(k) => Some((i.constants[k].size, i.constants[k].value)),
        None => match spec_ref_find(i.references, pos) {
            Some(k) => match spec_resolve(links, symbols, i.references[k].rf) {
                Some(addr) => if (pos as int) < args.len() {
                    Some((spec_arg_width(args[pos as int]), addr as i64))
                } else {
                    None
                },
                None => None,
            },
            None => Some((ConstantSize::Byte, 0)),
        },
    };
    match picked {
        None => None,
        Some((size, value)) => {
            if spec_const_find(i.constants, pos) is None
                && spec_ref_find(i.references, pos) is None {
                Some(Seq::empty())
            } else if (pos as int) >= args.len() {
                None
            } else {
                let v2: i64 = if args[pos as int] == ArgumentTypes::RelPointer {
                    value.wrapping_sub(start as i64)
                } else {
                    value
                };
                Some(spec_value_bytes(v2, size))
            }
        },
    }
}

/// The constant width an argument type encodes with.
pub open spec fn spec_arg_width(a: ArgumentTypes) -> ConstantSize {
    if a.spec_size() == 4 {
        ConstantSize::DoubleWord
    } else if a.spec_size() == 2 {
        ConstantSize::Word
    } else {
        ConstantSize::Byte
    }
}

/// The bytes one instruction contributes to the image: its opcode on one
/// or two bytes, then its first and second argument positions.
pub open spec fn spec_instr_emit(
    links: Seq<LinkSecView>,
    symbols: Seq<SectionView>,
    i: InstrView,
    start: u64,
) -> Option<Seq<u8>> {
    match spec_instruction(i.opcode) {
        None => None,
        Some(row) => {
            let opbytes: Seq<u8> = if spec_extended_opcode(i.opcode) {
                spec_u16_to_le_bytes(i.opcode)
            } else {
                seq![i.opcode as u8]
            };
            match spec_arg_emit(links, symbols, i, row.1, 0, start) {
                None => None,
                Some(a0) => match spec_arg_emit(links, symbols, i, row.1, 1, start) {
                    None => None,
                    Some(a1) => Some(opbytes + a0 + a1),
                },
            }
        },
    }
}

/// The bytes a section's first `n` entries contribute, the section placed
/// at `secoff`: encoded instructions, or binary units with references
/// resolved to absolute addresses.
pub open spec fn spec_section_emit(
    links: Seq<LinkSecView>,
    symbols: Seq<SectionView>,
    sec: SectionView,
    n: nat,
    secoff: u64,
) -> Option<Seq<u8>>
    decreases n,
{
    if n == 0 {
        Some(Seq::empty())
    } else if sec.binary_section {
        if n > sec.binary_data.len() {
            None
        } else {
            match spec_section_emit(links, symbols, sec, (n - 1) as nat, secoff) {
                None => None,
                Some(pre) => {
                    let u = sec.binary_data[n - 1];
                    match u.constant {
                        Some(c) => Some(pre + spec_value_bytes(c.value, c.size)),
                        None => match u.reference {
                            Some(rf) => match spec_resolve(links, symbols, rf.rf) {
                                Some(addr) => Some(pre + spec_value_bytes(addr as i64, rf.size)),
                                None => None,
                            },
                            None => None,
                        },
                    }
                },
            }
        }
    } else {
        if n > sec.instructions.len() {
            None
        } else {
            match spec_section_emit(links, symbols, sec, (n - 1) as nat, secoff) {
                None => None,
                Some(pre) => {
                    if secoff + pre.len() > u64::MAX {
                        None
                    } else {
                        match spec_instr_emit(links, symbols, sec.instructions[n - 1],
                            (secoff + pre.len()) as u64) {
                            None => None,
                            Some(bs) => Some(pre + bs),
                        }
                    }
                },
            }
        }
    }
}

/// The whole image over the first `j` link sections: each section's bytes,
/// each padded with zeros to its alignment boundary.
pub open spec fn spec_image(
    links: Seq<LinkSecView>,
    symbols: Seq<SectionView>,
    j: nat,
) -> Option<Seq<u8>>
    decreases j,
{
    if j == 0 {
        Some(Seq::empty())
    } else {
        match spec_image(links, symbols, (j - 1) as nat) {
            None => None,
            Some(prefix) => {
                let link = links[j - 1];
                match spec_find_section(symbols, link.name) {
                    None => None,
                    Some(k) => {
                        let sec = symbols[k];
                        let count: nat = if sec.binary_section {
                            sec.binary_data.len()
                        } else {
                            sec.instructions.len()
                        };
                        match (spec_section_offset(links, symbols, link.name),
                            spec_section_size(sec)) {
                            (Some(secoff), Some(size)) => {
                                if secoff > u64::MAX || link.alignment == 0 {
                                    None
                                } else {
                                    match spec_section_emit(links, symbols, sec, count,
                                        secoff as u64) {
                                        None => None,
                                        Some(bytes) => {
                                            let end = secoff + size;
                                            let target = align_up(end, link.alignment as nat);
                                            if end > u64::MAX || target > u64::MAX {
                                                None
                                            } else {
                                                Some(prefix + bytes + Seq::new(
                                                    (target - end) as nat, |m: int| 0u8))
                                            }
                                        },
                                    }
                                }
                            },
                            _ => None,
                        }
                    },
                }
            },
        }
    }
}

proof fn lemma_offset_sum_mono(links: Seq<LinkSecView>, symbols: Seq<SectionView>, j1: nat, j2: nat)
    requires
        j1 <= j2,
        spec_offset_sum(links, symbols, j2) is Some,
    ensures
        spec_offset_sum(links, symbols, j1) is Some,
        spec_offset_sum(links, symbols, j1)->Some_0 <= spec_offset_sum(links, symbols, j2)->Some_0,
    decreases j2,
{
    if j1 < j2 {
        lemma_offset_sum_mono(links, symbols, j1, (j2 - 1) as nat);
    }
}

proof fn lemma_align_up_u64_none(n: u64, a: u64)
    requires
        a > 0,
        align_up_u64(n, a) is None,
    ensures
        align_up(n as nat, a as nat) > u64::MAX,
{
    if n % a == 0 {
    } else {
        let d = n / a;
        if d == u64::MAX {
            if a == 1 {
                assert(n % a == 0);
            } else {
                vstd::arithmetic::div_mod::lemma_div_is_ordered_by_denominator(
                    n as int, 2, a as int);
                vstd::arithmetic::div_mod::lemma_div_is_ordered(n as int,
                    u64::MAX as int, 2);
                assert(n / a <= u64::MAX as int / 2);
            }
            assert(false);
        }
        assert((d + 1) * a > u64::MAX);
        assert(align_up(n as nat, a as nat) == (n as nat / a as nat + 1) * (a as nat));
        assert(n as nat / a as nat == d as nat);
    }
}

/// The linker: the structure that lays sections out, and the merged
/// sections loaded so far.
#[derive(Debug)]
pub struct Linker {
    pub link_structure: LinkStructure,
    pub section_symbols: Vec<SectionData>,
}

impl Linker {
    /// A fresh linker with the default structure and no symbols.
    pub fn new() -> (r: Self)
        ensures
            r.section_symbols.deep_view() == Seq::<SectionView>::empty(),
            r.link_structure.deep_view().len() == 3,
    {
        let r = Linker { link_structure: LinkStructure::new(), section_symbols: Vec::new() };
        proof {
            assert(r.section_symbols.deep_view() =~= Seq::<SectionView>::empty());
        }
        r
    }

    /// Merges an object's sections into the loaded symbols, section by
    /// section in the object's order.
    #[verifier::loop_isolation(false)]
    pub fn load_symbols(&mut self, objfmt: ObjectFormat) -> (r: Result<(), LinkError>)
        ensures
            match spec_load_symbols(old(self).section_symbols.deep_view(),
                objfmt.sections.deep_view(), 0) {
                Some(sym2) => r is Ok && final(self).section_symbols.deep_view() == sym2
                    && final(self).link_structure == old(self).link_structure,
                None => r is Err && r->Err_0 == LinkError::BadMerge,
            },
    {
        let ghost incoming = objfmt.sections.deep_view();
        let mut secs = objfmt.sections;
        proof {
            assert(secs.deep_view() =~= incoming.skip(0));
        }
        while secs.len() > 0
            invariant
                secs@.len() <= incoming.len(),
                secs.deep_view() == incoming.skip(incoming.len() - secs@.len()),
                self.link_structure == old(self).link_structure,
                spec_load_symbols(old(self).section_symbols.deep_view(), incoming, 0)
                    == spec_load_symbols(self.section_symbols.deep_view(), incoming,
                        (incoming.len() - secs@.len()) as nat),
            decreases secs@.len(),
        {
            let ghost i0 = incoming.len() - secs@.len();
            let ghost symv = self.section_symbols.deep_view();
            let ghost suffix = secs.deep_view();
            let sec = secs.remove(0);
            let ghost secv = sec.deep_view();
            proof {
                assert(suffix[0] == incoming[i0 as int]);
                assert(secv == incoming[i0 as int]);
                assert forall|m: int| 0 <= m < secs.deep_view().len() implies
                    secs.deep_view()[m] == incoming.skip(i0 as int + 1)[m] by {
                    assert(secs.deep_view()[m] == suffix[m + 1]);
                }
                assert(secs.deep_view() =~= incoming.skip(i0 as int + 1));
            }
            let name_copy = crate::text::clone_chars(&sec.name);
            match crate::objgen::find_section_idx(&self.section_symbols, name_copy.as_slice()) {
                Some(k) => {
                    proof {
                        lemma_find_section(symv, secv.name);
                    }
                    let mut target = self.section_symbols.remove(k);
                    match target.append_other(sec) {
                        Ok(()) => {},
                        Err(e) => {
                            return Err(e);
                        },
                    }
                    let ghost mergedv = target.deep_view();
                    self.section_symbols.insert(k, target);
                    proof {
                        assert forall|m: int| 0 <= m < self.section_symbols.deep_view().len()
                            implies self.section_symbols.deep_view()[m]
                                == symv.update(k as int, mergedv)[m] by {
                            if m < k {
                            } else if m == k {
                            } else {
                            }
                        }
                        assert(self.section_symbols.deep_view()
                            =~= symv.update(k as int, mergedv));
                    }
                },
                None => {
                    self.section_symbols.push(sec);
                    proof {
                        assert(self.section_symbols.deep_view() =~= symv.push(secv));
                    }
                },
            }
        }
        Ok(())
    }

    /// Finds the first loaded section that declares a label.
    pub fn find_section_with_label(&self, label: &[char]) -> (r: Option<usize>)
        ensures
            match spec_find_labeled(self.section_symbols.deep_view(), label@) {
                Some(k) => r is Some && r->Some_0 == k,
                None => r is None,
            },
    {
        proof {
            lemma_find_labeled(self.section_symbols.deep_view(), label@);
        }
        let mut i: usize = 0;
        while i < self.section_symbols.len()
            invariant
                i <= self.section_symbols@.len(),
                forall|m: int| 0 <= m < i ==> spec_label_find(
                    (#[trigger] self.section_symbols.deep_view()[m]).labels, label@) is None,
            decreases self.section_symbols@.len() - i,
        {
            let sec = &self.section_symbols[i];
            let ghost lv = sec.labels.deep_view();
            if crate::objgen::labels_contain(&sec.labels, label) {
                proof {
                    lemma_label_taken_find(lv, label@);
                    lemma_find_labeled_witness(self.section_symbols.deep_view(), label@,
                        i as nat);
                }
                return Some(i);
            }
            proof {
                lemma_label_taken_find(lv, label@);
            }
            i = i + 1;
        }
        None
    }

    /// The byte offset the layout assigns to a named section.
    #[verifier::loop_isolation(false)]
    pub fn get_section_offset(&self, section_name: &[char]) -> (r: Result<u64, LinkError>)
        ensures
            match spec_section_offset(self.link_structure.deep_view(),
                self.section_symbols.deep_view(), section_name@) {
                Some(off) => if off <= u64::MAX {
                    r is Ok && r->Ok_0 == off
                } else {
                    r is Err
                },
                None => r is Err,
            },
    {
        let ghost lsv = self.link_structure.deep_view();
        let ghost symv = self.section_symbols.deep_view();
        let j = match self.link_structure.get_section_index(section_name) {
            Some(j) => j,
            None => {
                return Err(LinkError::UndefinedSection {
                    name: vstd::slice::slice_to_vec(section_name),
                });
            },
        };
        proof {
            lemma_find_link(lsv, section_name@);
        }
        let mut off: u64 = 0;
        let mut m: usize = 0;
        while m < j
            invariant
                m <= j,
                spec_offset_sum(lsv, symv, m as nat) == Some(off as nat),
            decreases j - m,
        {
            proof {
                assert(lsv[m as int] == self.link_structure.sections@[m as int].deep_view());
            }
            let k = match crate::objgen::find_section_idx(&self.section_symbols,
                self.link_structure.sections[m].name.as_slice()) {
                Some(k) => k,
                None => {
                    proof {
                        if spec_section_offset(lsv, symv, section_name@) is Some {
                            lemma_offset_sum_mono(lsv, symv, (m + 1) as nat, j as nat);
                            lemma_align_up(spec_offset_sum(lsv, symv, j as nat)->Some_0,
                                lsv[j as int].alignment as nat);
                        }
                    }
                    return Err(LinkError::UndefinedSection {
                        name: crate::text::clone_chars(
                            &self.link_structure.sections[m].name),
                    });
                },
            };
            proof {
                lemma_find_section(symv, lsv[m as int].name);
            }
            let size = match self.section_symbols[k].get_binary_size() {
                Ok(s) => s,
                Err(e) => {
                    proof {
                        if spec_section_offset(lsv, symv, section_name@) is Some {
                            lemma_offset_sum_mono(lsv, symv, (m + 1) as nat, j as nat);
                            lemma_align_up(spec_offset_sum(lsv, symv, j as nat)->Some_0,
                                lsv[j as int].alignment as nat);
                        }
                    }
                    return Err(e);
                },
            };
            match off.checked_add(size) {
                Some(o2) => {
                    off = o2;
                },
                None => {
                    proof {
                        if spec_section_offset(lsv, symv, section_name@) is Some {
                            lemma_offset_sum_mono(lsv, symv, (m + 1) as nat, j as nat);
                            lemma_align_up(spec_offset_sum(lsv, symv, j as nat)->Some_0,
                                lsv[j as int].alignment as nat);
                        }
                    }
                    return Err(LinkError::TooLarge);
                },
            }
            m = m + 1;
        }
        let alignment = self.link_structure.sections[j].alignment;
        if alignment == 0 {
            proof {
                assert(lsv[j as int] == self.link_structure.sections@[j as int].deep_view());
            }
            return Err(LinkError::BadAlignment);
        }
        proof {
            assert(lsv[j as int] == self.link_structure.sections@[j as int].deep_view());
        }
        match align_up_exec(off, alignment) {
            Some(x) => {
                proof {
                    lemma_align_up_u64(off, alignment);
                }
                Ok(x)
            },
            None => {
                proof {
                    lemma_align_up_u64_none(off, alignment);
                }
                Err(LinkError::TooLarge)
            },
        }
    }

    /// The absolute byte address of a label.
    pub fn resolve_label(&self, label: &[char]) -> (r: Result<u64, LinkError>)
        ensures
            match spec_resolve(self.link_structure.deep_view(),
                self.section_symbols.deep_view(), label@) {
                Some(addr) => r is Ok && r->Ok_0 == addr,
                None => r is Err,
            },
    {
        let k = match self.find_section_with_label(label) {
            Some(k) => k,
            None => {
                return Err(LinkError::UndefinedReference {
                    symbol: vstd::slice::slice_to_vec(label),
                });
            },
        };
        proof {
            lemma_find_labeled(self.section_symbols.deep_view(), label@);
        }
        let local = match self.section_symbols[k].get_label_binary_offset(label) {
            Ok(n) => n,
            Err(e) => {
                return Err(e);
            },
        };
        let secoff = match self.get_section_offset(self.section_symbols[k].name.as_slice()) {
            Ok(o) => o,
            Err(e) => {
                return Err(e);
            },
        };
        match secoff.checked_add(local) {
            Some(a) => Ok(a),
            None => Err(LinkError::TooLarge),
        }
    }
}

/// A label list holds a name exactly when the first-match search finds it.
proof fn lemma_label_taken_find(ls: Seq<LabelView>, name: Seq<char>)
    ensures
        label_name_taken(ls, name) <==> spec_label_find(ls, name) is Some,
    decreases ls.len(),
{
    if ls.len() > 0 {
        lemma_label_taken_find(ls.drop_first(), name);
        if label_name_taken(ls, name) {
            let m = choose|m: int| 0 <= m < ls.len() && ls[m].name == name;
            if m > 0 {
                assert(ls.drop_first()[m - 1] == ls[m]);
                assert(label_name_taken(ls.drop_first(), name));
            }
        }
        if label_name_taken(ls.drop_first(), name) {
            let m = choose|m: int| 0 <= m < ls.drop_first().len()
                && ls.drop_first()[m].name == name;
            assert(ls[m + 1] == ls.drop_first()[m]);
            assert(label_name_taken(ls, name));
        }
    }
}

impl Linker {
    /// Serializes the merged sections as one object file, the same format
    /// the generator writes.
    pub fn generate_object_binary(&self) -> (r: Result<Vec<u8>, crate::objgen::ObjectError>)
        ensures
            r is Ok <==> (self.section_symbols@.len() <= u64::MAX
                && crate::objgen::sections_writable(self.section_symbols.deep_view())),
            r is Ok ==> r->Ok_0@ == crate::objgen::spec_object_bytes(
                crate::objgen::ObjectFormatHeader {
                    magic: crate::objgen::MAGIC_FORMAT_NUMBER,
                    sections_length: self.section_symbols@.len() as u64,
                    version: crate::objgen::CURRENT_FORMAT_VERSION,
                }, self.section_symbols.deep_view()),
    {
        let mut header = crate::objgen::ObjectFormatHeader::new();
        header.sections_length = self.section_symbols.len() as u64;
        let obj = ObjectFormat {
            header,
            defines: Vec::new(),
            sections: self.clone_sections(),
            current_section: crate::text::chars_of("text"),
            float_values: Vec::new(),
            data_files: Vec::new(),
        };
        obj.generate_binary()
    }

    /// A copy of the merged sections.
    fn clone_sections(&self) -> (r: Vec<SectionData>)
        ensures
            r.deep_view() == self.section_symbols.deep_view(),
    {
        let mut out: Vec<SectionData> = Vec::new();
        let mut i: usize = 0;
        proof {
            assert(out.deep_view()
                =~= self.section_symbols.deep_view().subrange(0, 0));
        }
        while i < self.section_symbols.len()
            invariant
                i <= self.section_symbols@.len(),
                out.deep_view() =~= self.section_symbols.deep_view().subrange(0, i as int),
            decreases self.section_symbols@.len() - i,
        {
            let ghost pre = out.deep_view();
            let s = &self.section_symbols[i];
            let mut instructions: Vec<crate::objgen::InstructionData> = Vec::new();
            let mut a: usize = 0;
            proof {
                assert(instructions.deep_view()
                    =~= s.instructions.deep_view().subrange(0, 0));
            }
            while a < s.instructions.len()
                invariant
                    a <= s.instructions@.len(),
                    instructions.deep_view()
                        =~= s.instructions.deep_view().subrange(0, a as int),
                decreases s.instructions@.len() - a,
            {
                let ghost ipre = instructions.deep_view();
                let c = s.instructions[a].clone();
                let ghost cv = c.deep_view();
                instructions.push(c);
                a = a + 1;
                proof {
                    assert(instructions.deep_view() =~= ipre.push(cv));
                    assert(instructions.deep_view()
                        =~= s.instructions.deep_view().subrange(0, a as int));
                }
            }
            let mut labels: Vec<crate::objgen::ObjectLabelSymbol> = Vec::new();
            let mut b: usize = 0;
            proof {
                assert(labels.deep_view() =~= s.labels.deep_view().subrange(0, 0));
            }
            while b < s.labels.len()
                invariant
                    b <= s.labels@.len(),
                    labels.deep_view() =~= s.labels.deep_view().subrange(0, b as int),
                decreases s.labels@.len() - b,
            {
                let ghost lpre = labels.deep_view();
                let c = s.labels[b].clone();
                let ghost cv = c.deep_view();
                labels.push(c);
                b = b + 1;
                proof {
                    assert(labels.deep_view() =~= lpre.push(cv));
                    assert(labels.deep_view() =~= s.labels.deep_view().subrange(0, b as int));
                }
            }
            let mut binary_data: Vec<crate::objgen::BinaryUnit> = Vec::new();
            let mut c2: usize = 0;
            proof {
                assert(binary_data.deep_view()
                    =~= s.binary_data.deep_view().subrange(0, 0));
            }
            while c2 < s.binary_data.len()
                invariant
                    c2 <= s.binary_data@.len(),
                    binary_data.deep_view()
                        =~= s.binary_data.deep_view().subrange(0, c2 as int),
                decreases s.binary_data@.len() - c2,
            {
                let ghost upre = binary_data.deep_view();
                let c = s.binary_data[c2].clone();
                let ghost cv = c.deep_view();
                binary_data.push(c);
                c2 = c2 + 1;
                proof {
                    assert(binary_data.deep_view() =~= upre.push(cv));
                    assert(binary_data.deep_view()
                        =~= s.binary_data.deep_view().subrange(0, c2 as int));
                }
            }
            let copy = SectionData {
                name: crate::text::clone_chars(&s.name),
                instructions,
                labels,
                binary_data,
                binary_section: s.binary_section,
            };
            let ghost cv = copy.deep_view();
            out.push(copy);
            i = i + 1;
            proof {
                assert(s.instructions.deep_view().subrange(0,
                    s.instructions@.len() as int) =~= s.instructions.deep_view());
                assert(s.labels.deep_view().subrange(0, s.labels@.len() as int)
                    =~= s.labels.deep_view());
                assert(s.binary_data.deep_view().subrange(0, s.binary_data@.len() as int)
                    =~= s.binary_data.deep_view());
                assert(cv == self.section_symbols.deep_view()[i - 1]);
                assert(out.deep_view() =~= pre.push(cv));
                assert(out.deep_view()
                    =~= self.section_symbols.deep_view().subrange(0, i as int));
            }
        }
        proof {
            assert(self.section_symbols.deep_view().subrange(0,
                self.section_symbols@.len() as int) =~= self.section_symbols.deep_view());
        }
        out
    }
}

proof fn lemma_find_labeled_witness(ss: Seq<SectionView>, label: Seq<char>, k: nat)
    requires
        k < ss.len(),
        spec_label_find(ss[k as int].labels, label) is Some,
        forall|m: int| 0 <= m < k
            ==> spec_label_find((#[trigger] ss[m]).labels, label) is None,
    ensures
        spec_find_labeled(ss, label) == Some(k as int),
    decreases ss.len(),
{
    if ss.len() > 0 && spec_label_find(ss[0].labels, label) is None {
        assert forall|m: int| 0 <= m < k - 1 implies
            spec_label_find((#[trigger] ss.drop_first()[m]).labels, label) is None by {
            assert(ss.drop_first()[m] == ss[m + 1]);
        }
        lemma_find_labeled_witness(ss.drop_first(), label, (k - 1) as nat);
    }
}

impl Linker {
    /// Appends the bytes one argument position contributes.
    fn emit_arg(
        &self,
        binary: &mut Vec<u8>,
        instruction: &crate::objgen::InstructionData,
        args: &Vec<ArgumentTypes>,
        pos: u8,
        start: u64,
    ) -> (r: Result<(), LinkError>)
        ensures
            match spec_arg_emit(self.link_structure.deep_view(),
                self.section_symbols.deep_view(), instruction.deep_view(), args@, pos, start) {
                Some(bs) => r is Ok && final(binary)@ == old(binary)@ + bs,
                None => r is Err && final(binary)@ == old(binary)@,
            },
    {
        let ghost iv = instruction.deep_view();
        let cidx = const_find_exec(&instruction.constants, pos);
        if let Some(k) = cidx {
            let c = instruction.constants[k];
            if pos as usize >= args.len() {
                return Err(LinkError::UnknownOpcode);
            }
            let v2: i64 = if args[pos as usize] == ArgumentTypes::RelPointer {
                c.value.wrapping_sub(start as i64)
            } else {
                c.value
            };
            crate::objgen::write_value(binary, v2, c.size);
            return Ok(());
        }
        let ridx = ref_find_exec(&instruction.references, pos);
        match ridx {
            None => {
                proof {
                    assert(old(binary)@ + Seq::<u8>::empty() =~= old(binary)@);
                }
                Ok(())
            },
            Some(k) => {
                proof {
                    assert(iv.references[k as int]
                        == instruction.references@[k as int].deep_view());
                }
                let addr = match self.resolve_label(instruction.references[k].rf.as_slice()) {
                    Ok(a) => a,
                    Err(e) => {
                        return Err(e);
                    },
                };
                if pos as usize >= args.len() {
                    return Err(LinkError::UnknownOpcode);
                }
                let width = args[pos as usize].get_size();
                let size = match crate::objgen::ConstantSize::from_u8(width as u8) {
                    Some(s) => s,
                    None => {
                        proof {
                            assert(false);
                        }
                        return Err(LinkError::UnknownOpcode);
                    },
                };
                proof {
                    assert(size == spec_arg_width(args@[pos as int]));
                }
                let v2: i64 = if args[pos as usize] == ArgumentTypes::RelPointer {
                    (addr as i64).wrapping_sub(start as i64)
                } else {
                    addr as i64
                };
                crate::objgen::write_value(binary, v2, size);
                Ok(())
            },
        }
    }

    /// Appends one instruction's image bytes: the opcode, then its
    /// argument positions, relative pointers measured from `start`, the
    /// instruction's own absolute address.
    pub fn write_instruction_binary(
        &self,
        binary: &mut Vec<u8>,
        instruction: &crate::objgen::InstructionData,
        start: u64,
    ) -> (r: Result<(), LinkError>)
        ensures
            match spec_instr_emit(self.link_structure.deep_view(),
                self.section_symbols.deep_view(), instruction.deep_view(), start) {
                Some(bs) => r is Ok && final(binary)@ == old(binary)@ + bs,
                None => r is Err && final(binary)@ == old(binary)@,
            },
    {
        let instructions_table = Instructions::new();
        let row = match instructions_table.get_instruction(instruction.opcode) {
            Some(x) => x,
            None => {
                return Err(LinkError::UnknownOpcode);
            },
        };
        let mut bin: Vec<u8> = Vec::new();
        if row.extended_opcode() {
            let mut bs = u16_to_le_bytes(instruction.opcode);
            bin.append(&mut bs);
            proof {
                assert(bin@ =~= spec_u16_to_le_bytes(instruction.opcode));
            }
        } else {
            bin.push(instruction.opcode as u8);
            proof {
                assert(bin@ =~= seq![instruction.opcode as u8]);
            }
        }
        let ghost opbytes = bin@;
        match self.emit_arg(&mut bin, instruction, &row.args, 0, start) {
            Ok(()) => {},
            Err(e) => {
                return Err(e);
            },
        }
        match self.emit_arg(&mut bin, instruction, &row.args, 1, start) {
            Ok(()) => {},
            Err(e) => {
                return Err(e);
            },
        }
        let ghost emitted = bin@;
        let mut bin2 = bin;
        binary.append(&mut bin2);
        proof {
            assert(emitted =~= spec_instr_emit(
                self.link_structure.deep_view(), self.section_symbols.deep_view(),
                instruction.deep_view(), start)->Some_0);
        }
        Ok(())
    }

    /// Appends a whole section's image bytes, the section placed at
    /// `secoff`.
    #[verifier::loop_isolation(false)]
    #[verifier::rlimit(100)]
    pub fn section_binary(
        &self,
        binary: &mut Vec<u8>,
        section: &SectionData,
        secoff: u64,
    ) -> (r: Result<(), LinkError>)
        ensures
            ({
                let count: nat = if section.deep_view().binary_section {
                    section.deep_view().binary_data.len()
                } else {
                    section.deep_view().instructions.len()
                };
                match spec_section_emit(self.link_structure.deep_view(),
                    self.section_symbols.deep_view(), section.deep_view(), count, secoff) {
                    Some(bs) => r is Ok && final(binary)@ == old(binary)@ + bs,
                    None => r is Err,
                }
            }),
    {
        let ghost lsv = self.link_structure.deep_view();
        let ghost symv = self.section_symbols.deep_view();
        let ghost sv = section.deep_view();
        let base = binary.len();
        if section.binary_section {
            let mut i: usize = 0;
            while i < section.binary_data.len()
                invariant
                    i <= sv.binary_data.len(),
                    binary@.len() >= base,
                    spec_section_emit(lsv, symv, sv, i as nat, secoff)
                        == Some(binary@.skip(base as int)),
                    binary@.subrange(0, base as int) == old(binary)@,
                decreases sv.binary_data.len() - i,
            {
                let ghost pre = binary@.skip(base as int);
                proof {
                    assert(sv.binary_data[i as int]
                        == section.binary_data@[i as int].deep_view());
                }
                let unit = &section.binary_data[i];
                if let Some(c) = &unit.constant {
                    crate::objgen::write_value(binary, c.value, c.size);
                } else if let Some(rf) = &unit.reference {
                    let addr = match self.resolve_label(rf.rf.as_slice()) {
                        Ok(a) => a,
                        Err(e) => {
                            proof {
                                if spec_section_emit(lsv, symv, sv, sv.binary_data.len(),
                                    secoff) is Some {
                                    lemma_section_emit_mono(lsv, symv, sv, (i + 1) as nat,
                                        sv.binary_data.len(), secoff);
                                }
                            }
                            return Err(e);
                        },
                    };
                    crate::objgen::write_value(binary, addr as i64, rf.size);
                } else {
                    proof {
                        if spec_section_emit(lsv, symv, sv, sv.binary_data.len(),
                            secoff) is Some {
                            lemma_section_emit_mono(lsv, symv, sv, (i + 1) as nat,
                                sv.binary_data.len(), secoff);
                        }
                    }
                    return Err(LinkError::EmptyUnit);
                }
                i = i + 1;
                proof {
                    assert(binary@.skip(base as int)
                        =~= pre + binary@.skip(base as int).skip(pre.len() as int));
                    assert(binary@.subrange(0, base as int) =~= old(binary)@);
                }
            }
            proof {
                assert(binary@ =~= old(binary)@ + binary@.skip(base as int));
            }
            Ok(())
        } else {
            let mut i: usize = 0;
            while i < section.instructions.len()
                invariant
                    i <= sv.instructions.len(),
                    binary@.len() >= base,
                    spec_section_emit(lsv, symv, sv, i as nat, secoff)
                        == Some(binary@.skip(base as int)),
                    binary@.subrange(0, base as int) == old(binary)@,
                decreases sv.instructions.len() - i,
            {
                let ghost pre = binary@.skip(base as int);
                proof {
                    assert(sv.instructions[i as int]
                        == section.instructions@[i as int].deep_view());
                }
                let emitted = binary.len() - base;
                let start = match secoff.checked_add(emitted as u64) {
                    Some(s) => s,
                    None => {
                        proof {
                            if spec_section_emit(lsv, symv, sv, sv.instructions.len(),
                                secoff) is Some {
                                lemma_section_emit_mono(lsv, symv, sv, (i + 1) as nat,
                                    sv.instructions.len(), secoff);
                            }
                        }
                        return Err(LinkError::TooLarge);
                    },
                };
                match self.write_instruction_binary(binary, &section.instructions[i], start) {
                    Ok(()) => {},
                    Err(e) => {
                        proof {
                            if spec_section_emit(lsv, symv, sv, sv.instructions.len(),
                                secoff) is Some {
                                lemma_section_emit_mono(lsv, symv, sv, (i + 1) as nat,
                                    sv.instructions.len(), secoff);
                            }
                        }
                        return Err(e);
                    },
                }
                i = i + 1;
                proof {
                    assert(binary@.skip(base as int)
                        =~= pre + binary@.skip(base as int).skip(pre.len() as int));
                    assert(binary@.subrange(0, base as int) =~= old(binary)@);
                }
            }
            proof {
                assert(binary@ =~= old(binary)@ + binary@.skip(base as int));
            }
            Ok(())
        }
    }

    /// Lays the sections out per the given link structure (or the default
    /// one) and emits the image: each section's bytes in declared order,
    /// each padded with zeros to its alignment boundary.
    #[verifier::loop_isolation(false)]
    #[verifier::rlimit(100)]
    pub fn generate_binary(&mut self, ls: Option<LinkStructure>) -> (r: Result<
        Vec<u8>,
        LinkError,
    >)
        ensures
            final(self).section_symbols == old(self).section_symbols,
            ls matches Some(l) ==> final(self).link_structure.deep_view() == l.deep_view(),
            match spec_image(final(self).link_structure.deep_view(),
                final(self).section_symbols.deep_view(),
                final(self).link_structure.deep_view().len()) {
                Some(img) => r is Ok && r->Ok_0@ == img,
                None => r is Err,
            },
    {
        self.link_structure = match ls {
            Some(l) => l,
            None => LinkStructure::new(),
        };
        let ghost lsv = self.link_structure.deep_view();
        let ghost symv = self.section_symbols.deep_view();
        let mut image: Vec<u8> = Vec::new();
        proof {
            assert(image@ =~= Seq::<u8>::empty());
        }
        let mut j: usize = 0;
        while j < self.link_structure.sections.len()
            invariant
                j <= lsv.len(),
                spec_image(lsv, symv, j as nat) == Some(image@),
            decreases lsv.len() - j,
        {
            let ghost pre = image@;
            proof {
                assert(lsv[j as int]
                    == self.link_structure.sections@[j as int].deep_view());
            }
            let link_name = crate::text::clone_chars(&self.link_structure.sections[j].name);
            let alignment = self.link_structure.sections[j].alignment;
            let k = match crate::objgen::find_section_idx(&self.section_symbols,
                link_name.as_slice()) {
                Some(k) => k,
                None => {
                    proof {
                        if spec_image(lsv, symv, lsv.len()) is Some {
                            lemma_image_mono(lsv, symv, (j + 1) as nat, lsv.len());
                        }
                    }
                    return Err(LinkError::UndefinedSection { name: link_name });
                },
            };
            proof {
                lemma_find_section(symv, lsv[j as int].name);
            }
            let secoff = match self.get_section_offset(link_name.as_slice()) {
                Ok(o) => o,
                Err(e) => {
                    proof {
                        if spec_image(lsv, symv, lsv.len()) is Some {
                            lemma_image_mono(lsv, symv, (j + 1) as nat, lsv.len());
                        }
                    }
                    return Err(e);
                },
            };
            let size = match self.section_symbols[k].get_binary_size() {
                Ok(s) => s,
                Err(e) => {
                    proof {
                        if spec_image(lsv, symv, lsv.len()) is Some {
                            lemma_image_mono(lsv, symv, (j + 1) as nat, lsv.len());
                        }
                    }
                    return Err(e);
                },
            };
            match self.section_binary_at(&mut image, k, secoff) {
                Ok(()) => {},
                Err(e) => {
                    proof {
                        if spec_image(lsv, symv, lsv.len()) is Some {
                            lemma_image_mono(lsv, symv, (j + 1) as nat, lsv.len());
                        }
                    }
                    return Err(e);
                },
            }
            let end = match secoff.checked_add(size) {
                Some(e) => e,
                None => {
                    proof {
                        if spec_image(lsv, symv, lsv.len()) is Some {
                            lemma_image_mono(lsv, symv, (j + 1) as nat, lsv.len());
                        }
                    }
                    return Err(LinkError::TooLarge);
                },
            };
            if alignment == 0 {
                proof {
                        if spec_image(lsv, symv, lsv.len()) is Some {
                            lemma_image_mono(lsv, symv, (j + 1) as nat, lsv.len());
                        }
                    }
                    return Err(LinkError::BadAlignment);
            }
            let target = match align_up_exec(end, alignment) {
                Some(t) => t,
                None => {
                    proof {
                        lemma_align_up_u64_none(end, alignment);
                        if spec_image(lsv, symv, lsv.len()) is Some {
                            lemma_image_mono(lsv, symv, (j + 1) as nat, lsv.len());
                        }
                    }
                    return Err(LinkError::TooLarge);
                },
            };
            proof {
                lemma_align_up_u64(end, alignment);
            }
            let mut pad: u64 = target - end;
            let ghost before_pad = image@;
            let ghost total_pad = pad;
            while pad > 0
                invariant
                    pad <= total_pad,
                    image@ =~= before_pad + Seq::new((total_pad - pad) as nat, |m: int| 0u8),
                decreases pad,
            {
                let ghost ipre = image@;
                image.push(0);
                pad = pad - 1;
                proof {
                    assert(image@ =~= ipre.push(0u8));
                    assert(image@ =~= before_pad + Seq::new((total_pad - pad) as nat,
                        |m: int| 0u8));
                }
            }
            j = j + 1;
            proof {
                assert(image@ =~= pre
                    + (before_pad.skip(pre.len() as int))
                    + Seq::new(total_pad as nat, |m: int| 0u8));
            }
        }
        Ok(image)
    }

    /// `section_binary` by symbol index, for the image loop.
    fn section_binary_at(&self, binary: &mut Vec<u8>, k: usize, secoff: u64) -> (r: Result<
        (),
        LinkError,
    >)
        requires
            k < self.section_symbols@.len(),
        ensures
            ({
                let sec = self.section_symbols.deep_view()[k as int];
                let count: nat = if sec.binary_section {
                    sec.binary_data.len()
                } else {
                    sec.instructions.len()
                };
                match spec_section_emit(self.link_structure.deep_view(),
                    self.section_symbols.deep_view(), sec, count, secoff) {
                    Some(bs) => r is Ok && final(binary)@ == old(binary)@ + bs,
                    None => r is Err,
                }
            }),
    {
        let sec = &self.section_symbols[k];
        self.section_binary(binary, sec, secoff)
    }
}

/// Finds the first constant at an argument position.
fn const_find_exec(cs: &Vec<crate::objgen::Constant>, pos: u8) -> (r: Option<usize>)
    ensures
        match spec_const_find(cs@, pos) {
            Some(k) => r is Some && r->Some_0 == k && k < cs@.len(),
            None => r is None,
        },
{
    let mut m: usize = 0;
    while m < cs.len()
        invariant
            m <= cs@.len(),
            forall|q: int| 0 <= q < m ==> (#[trigger] cs@[q]).argument_pos != pos,
        decreases cs@.len() - m,
    {
        if cs[m].argument_pos == pos {
            proof {
                lemma_const_find_witness(cs@, pos, m as nat);
            }
            return Some(m);
        }
        m = m + 1;
    }
    proof {
        lemma_const_find_none(cs@, pos);
    }
    None
}

/// Finds the first reference at an argument position.
fn ref_find_exec(rs: &Vec<crate::objgen::Reference>, pos: u8) -> (r: Option<usize>)
    ensures
        match spec_ref_find(rs.deep_view(), pos) {
            Some(k) => r is Some && r->Some_0 == k && k < rs@.len(),
            None => r is None,
        },
{
    let mut m: usize = 0;
    while m < rs.len()
        invariant
            m <= rs@.len(),
            forall|q: int| 0 <= q < m
                ==> (#[trigger] rs.deep_view()[q]).argument_pos != pos,
        decreases rs@.len() - m,
    {
        proof {
            assert(rs.deep_view()[m as int] == rs@[m as int].deep_view());
        }
        if rs[m].argument_pos == pos {
            proof {
                lemma_ref_find_witness(rs.deep_view(), pos, m as nat);
            }
            return Some(m);
        }
        m = m + 1;
    }
    proof {
        lemma_ref_find_none(rs.deep_view(), pos);
    }
    None
}

proof fn lemma_image_mono(
    links: Seq<LinkSecView>,
    symbols: Seq<SectionView>,
    j1: nat,
    j2: nat,
)
    requires
        j1 <= j2,
        spec_image(links, symbols, j2) is Some,
    ensures
        spec_image(links, symbols, j1) is Some,
    decreases j2,
{
    if j1 < j2 {
        lemma_image_mono(links, symbols, j1, (j2 - 1) as nat);
    }
}

proof fn lemma_section_emit_mono(
    links: Seq<LinkSecView>,
    symbols: Seq<SectionView>,
    sec: SectionView,
    n1: nat,
    n2: nat,
    secoff: u64,
)
    requires
        n1 <= n2,
        spec_section_emit(links, symbols, sec, n2, secoff) is Some,
    ensures
        spec_section_emit(links, symbols, sec, n1, secoff) is Some,
    decreases n2,
{
    if n1 < n2 {
        lemma_section_emit_mono(links, symbols, sec, n1, (n2 - 1) as nat, secoff);
    }
}

proof fn lemma_const_find_witness(cs: Seq<crate::objgen::Constant>, pos: u8, k: nat)
    requires
        k < cs.len(),
        cs[k as int].argument_pos == pos,
        forall|q: int| 0 <= q < k ==> (#[trigger] cs[q]).argument_pos != pos,
    ensures
        spec_const_find(cs, pos) == Some(k as int),
    decreases cs.len(),
{
    if cs.len() > 0 && cs[0].argument_pos != pos {
        assert forall|q: int| 0 <= q < k - 1 implies
            (#[trigger] cs.drop_first()[q]).argument_pos != pos by {
            assert(cs.drop_first()[q] == cs[q + 1]);
        }
        lemma_const_find_witness(cs.drop_first(), pos, (k - 1) as nat);
    }
}

proof fn lemma_const_find_none(cs: Seq<crate::objgen::Constant>, pos: u8)
    requires
        forall|q: int| 0 <= q < cs.len() ==> (#[trigger] cs[q]).argument_pos != pos,
    ensures
        spec_const_find(cs, pos) is None,
    decreases cs.len(),
{
    if cs.len() > 0 {
        assert forall|q: int| 0 <= q < cs.len() - 1 implies
            (#[trigger] cs.drop_first()[q]).argument_pos != pos by {
            assert(cs.drop_first()[q] == cs[q + 1]);
        }
        lemma_const_find_none(cs.drop_first(), pos);
    }
}

proof fn lemma_ref_find_witness(rs: Seq<crate::objgen::RefView>, pos: u8, k: nat)
    requires
        k < rs.len(),
        rs[k as int].argument_pos == pos,
        forall|q: int| 0 <= q < k ==> (#[trigger] rs[q]).argument_pos != pos,
    ensures
        spec_ref_find(rs, pos) == Some(k as int),
    decreases rs.len(),
{
    if rs.len() > 0 && rs[0].argument_pos != pos {
        assert forall|q: int| 0 <= q < k - 1 implies
            (#[trigger] rs.drop_first()[q]).argument_pos != pos by {
            assert(rs.drop_first()[q] == rs[q + 1]);
        }
        lemma_ref_find_witness(rs.drop_first(), pos, (k - 1) as nat);
    }
}

proof fn lemma_ref_find_none(rs: Seq<crate::objgen::RefView>, pos: u8)
    requires
        forall|q: int| 0 <= q < rs.len() ==> (#[trigger] rs[q]).argument_pos != pos,
    ensures
        spec_ref_find(rs, pos) is None,
    decreases rs.len(),
{
    if rs.len() > 0 {
        assert forall|q: int| 0 <= q < rs.len() - 1 implies
            (#[trigger] rs.drop_first()[q]).argument_pos != pos by {
            assert(rs.drop_first()[q] == rs[q + 1]);
        }
        lemma_ref_find_none(rs.drop_first(), pos);
    }
}

} // verus!