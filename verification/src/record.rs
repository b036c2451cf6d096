//! One decoded variant record, fully materialized into plain owned values.
//!
//! The external reader may reuse its internal buffers between records, so a
//! record's data is copied into owned byte strings before it reaches this
//! crate, and one record is live at a time. Floating-point values arrive
//! already rendered to text, with the missing sentinel mapped to `None`.

use vstd::prelude::*;

verus! {

/// The raw decoded value(s) a record carries for one tag.
#[derive(Clone, Debug)]
pub enum TagValue {
    /// Integer values; the missing sentinel renders as an empty cell.
    Ints(Vec<i32>),
    /// Float values, pre-rendered to text; `None` is the missing sentinel.
    Floats(Vec<Option<Vec<u8>>>),
    /// Text values.
    Texts(Vec<Vec<u8>>),
    /// A flag: present and set, or explicitly unset.
    Flag(bool),
}

/// A record-level annotation: one tag identifier with its value(s).
#[derive(Clone, Debug)]
pub struct InfoEntry {
    pub id: Vec<u8>,
    pub value: TagValue,
}

/// A sample-level annotation: one tag identifier with one value group per
/// sample, in sample order.
#[derive(Clone, Debug)]
pub struct FormatEntry {
    pub id: Vec<u8>,
    pub per_sample: Vec<TagValue>,
}

/// One decoded locus. Allele index 0 is the reference; indices 1..N are the
/// alternates. `pos` is 0-based and renders 1-based. `qual` is the quality
/// pre-rendered to text, `None` when missing. `filters` holds the resolved
/// filter names in declaration order, empty when the filter is unset.
/// `genotypes` holds each sample's genotype already rendered as canonical
/// text (for example `0/1` or `.`).
#[derive(Clone, Debug)]
pub struct Record {
    pub contig: Vec<u8>,
    pub pos: i32,
    pub alleles: Vec<Vec<u8>>,
    pub qual: Option<Vec<u8>>,
    pub filters: Vec<Vec<u8>>,
    pub info: Vec<InfoEntry>,
    pub format: Vec<FormatEntry>,
    pub genotypes: Vec<Vec<u8>>,
}

/// The value(s) of the first record-level entry under `id`, if any.
pub open spec fn info_value_of(entries: Seq<InfoEntry>, id: Seq<u8>) -> Option<TagValue>
    decreases entries.len(),
{
    if entries.len() == 0 {
        None
    } else if entries[0].id@ == id {
        Some(entries[0].value)
    } else {
        info_value_of(entries.drop_first(), id)
    }
}

/// The first sample-level entry under `id`, if any.
pub open spec fn format_entry_of(entries: Seq<FormatEntry>, id: Seq<u8>) -> Option<FormatEntry>
    decreases entries.len(),
{
    if entries.len() == 0 {
        None
    } else if entries[0].id@ == id {
        Some(entries[0])
    } else {
        format_entry_of(entries.drop_first(), id)
    }
}

/// The value group of sample `s` under the tag `id`, if the record carries
/// one.
pub open spec fn format_value_of(entries: Seq<FormatEntry>, id: Seq<u8>, s: int) -> Option<
    TagValue,
> {
    match format_entry_of(entries, id) {
        None => None,
        Some(e) => if 0 <= s < e.per_sample@.len() {
            Some(e.per_sample@[s])
        } else {
            None
        },
    }
}

proof fn lemma_info_value_at(entries: Seq<InfoEntry>, id: Seq<u8>, j: int)
    requires
        0 <= j < entries.len(),
        forall|l: int| 0 <= l < j ==> entries[l].id@ != id,
        entries[j].id@ == id,
    ensures
        info_value_of(entries, id) == Some(entries[j].value),
    decreases j,
{
    if j > 0 {
        lemma_info_value_at(entries.drop_first(), id, j - 1);
    }
}

proof fn lemma_info_value_none(entries: Seq<InfoEntry>, id: Seq<u8>)
    requires
        forall|l: int| 0 <= l < entries.len() ==> entries[l].id@ != id,
    ensures
        info_value_of(entries, id) is None,
    decreases entries.len(),
{
    if entries.len() > 0 {
        lemma_info_value_none(entries.drop_first(), id);
    }
}

proof fn lemma_format_entry_at(entries: Seq<FormatEntry>, id: Seq<u8>, j: int)
    requires
        0 <= j < entries.len(),
        forall|l: int| 0 <= l < j ==> entries[l].id@ != id,
        entries[j].id@ == id,
    ensures
        format_entry_of(entries, id) == Some(entries[j]),
    decreases j,
{
    if j > 0 {
        lemma_format_entry_at(entries.drop_first(), id, j - 1);
    }
}

proof fn lemma_format_entry_none(entries: Seq<FormatEntry>, id: Seq<u8>)
    requires
        forall|l: int| 0 <= l < entries.len() ==> entries[l].id@ != id,
    ensures
        format_entry_of(entries, id) is None,
    decreases entries.len(),
{
    if entries.len() > 0 {
        lemma_format_entry_none(entries.drop_first(), id);
    }
}

impl Record {
    /// Validity of a decoded record: the reference allele exists, and the
    /// 0-based position leaves room for 1-based rendering.
    pub open spec fn wf(self) -> bool {
        &&& self.alleles@.len() >= 1
        &&& 0 <= self.pos < i32::MAX
    }

    /// The number of alternate alleles, and so the number of rows the
    /// record produces.
    pub open spec fn alt_count(self) -> nat {
        (self.alleles@.len() - 1) as nat
    }

    /// The first record-level value under `id`, if the record carries one.
    pub fn info_value<'a>(&'a self, id: &[u8]) -> (r: Option<&'a TagValue>)
        ensures
            match r {
                Some(v) => info_value_of(self.info@, id@) == Some(*v),
                None => info_value_of(self.info@, id@) is None,
            },
    {
        let mut j: usize = 0;
        while j < self.info.len()
            invariant
                j <= self.info@.len(),
                forall|l: int| 0 <= l < j ==> self.info@[l].id@ != id@,
            decreases self.info@.len() - j,
        {
            if crate::tags::bytes_eq(self.info[j].id.as_slice(), id) {
                proof {
                    lemma_info_value_at(self.info@, id@, j as int);
                }
                return Some(&self.info[j].value);
            }
            j += 1;
        }
        proof {
            lemma_info_value_none(self.info@, id@);
        }
        None
    }

    /// The value group of sample `s` under the tag `id`, if the record
    /// carries one.
    pub fn format_value<'a>(&'a self, id: &[u8], s: usize) -> (r: Option<&'a TagValue>)
        ensures
            match r {
                Some(v) => format_value_of(self.format@, id@, s as int) == Some(*v),
                None => format_value_of(self.format@, id@, s as int) is None,
            },
    {
        let mut j: usize = 0;
        while j < self.format.len()
            invariant
                j <= self.format@.len(),
                forall|l: int| 0 <= l < j ==> self.format@[l].id@ != id@,
            decreases self.format@.len() - j,
        {
            if crate::tags::bytes_eq(self.format[j].id.as_slice(), id) {
                proof {
                    lemma_format_entry_at(self.format@, id@, j as int);
                }
                let e = &self.format[j];
                if s < e.per_sample.len() {
                    return Some(&e.per_sample[s]);
                } else {
                    return None;
                }
            }
            j += 1;
        }
        proof {
            lemma_format_entry_none(self.format@, id@);
        }
        None
    }
}

} // verus!
