//! The tag catalog: the ordered INFO and FORMAT tag declarations from the
//! file's header, together with the sample names.
//!
//! Column order follows header declaration order, so re-running on the same
//! file is column-stable. A tag listed without a declaration is reported as
//! undefined and renders as an empty cell on every row rather than aborting.

use vstd::prelude::*;

verus! {

/// The declared value type of an annotation tag.
#[derive(Clone, Copy, Debug, PartialEq, Eq, Structural)]
pub enum TagType {
    Integer,
    Float,
    Text,
    Flag,
}

/// The declared cardinality class: how many values a tag carries per record.
#[derive(Clone, Copy, Debug, PartialEq, Eq, Structural)]
pub enum Cardinality {
    /// A constant count independent of the alleles.
    Fixed(u32),
    /// One value per alternate allele, none for the reference.
    PerAltAllele,
    /// One value per allele, the reference included.
    PerAllele,
    /// One value per genotype; not addressable by allele position.
    PerGenotype,
    /// A variable, undeclared count; not addressable by allele position.
    Variable,
}

/// What the header declares for a tag: its value type and cardinality.
#[derive(Clone, Copy, Debug, PartialEq, Eq, Structural)]
pub struct TagDecl {
    pub ty: TagType,
    pub card: Cardinality,
}

/// One annotation tag column: the tag identifier and, when the header
/// defines the tag, its declaration. `decl` is `None` for a tag that the
/// header lists but does not define; such a tag renders empty everywhere.
#[derive(Clone, Debug)]
pub struct TagDescriptor {
    pub id: Vec<u8>,
    pub decl: Option<TagDecl>,
}

/// The header model: sample names plus the ordered INFO and FORMAT tag
/// descriptors, each list in header declaration order.
#[derive(Clone, Debug)]
pub struct Catalog {
    pub samples: Vec<Vec<u8>>,
    pub info: Vec<TagDescriptor>,
    pub format: Vec<TagDescriptor>,
}

/// The first descriptor in `descs` whose identifier is `id`, if any.
pub open spec fn find_tag(descs: Seq<TagDescriptor>, id: Seq<u8>) -> Option<TagDescriptor>
    decreases descs.len(),
{
    if descs.len() == 0 {
        None
    } else if descs[0].id@ == id {
        Some(descs[0])
    } else {
        find_tag(descs.drop_first(), id)
    }
}

proof fn lemma_find_tag_at(descs: Seq<TagDescriptor>, id: Seq<u8>, j: int)
    requires
        0 <= j < descs.len(),
        forall|l: int| 0 <= l < j ==> descs[l].id@ != id,
        descs[j].id@ == id,
    ensures
        find_tag(descs, id) == Some(descs[j]),
    decreases j,
{
    if j > 0 {
        lemma_find_tag_at(descs.drop_first(), id, j - 1);
    }
}

proof fn lemma_find_tag_none(descs: Seq<TagDescriptor>, id: Seq<u8>)
    requires
        forall|l: int| 0 <= l < descs.len() ==> descs[l].id@ != id,
    ensures
        find_tag(descs, id) is None,
    decreases descs.len(),
{
    if descs.len() > 0 {
        lemma_find_tag_none(descs.drop_first(), id);
    }
}

/// True when the byte strings `a` and `b` are equal.
pub fn bytes_eq(a: &[u8], b: &[u8]) -> (r: bool)
    ensures
        r == (a@ == b@),
{
    if a.len() != b.len() {
        assert(a@.len() != b@.len());
        return false;
    }
    let mut j: usize = 0;
    while j < a.len()
        invariant
            j <= a@.len(),
            a@.len() == b@.len(),
            forall|l: int| 0 <= l < j ==> a@[l] == b@[l],
        decreases a@.len() - j,
    {
        if a[j] != b[j] {
            return false;
        }
        j += 1;
    }
    assert(a@ =~= b@);
    true
}

/// Linear first-match search of a descriptor list by tag identifier.
fn find_in<'a>(descs: &'a Vec<TagDescriptor>, id: &[u8]) -> (r: Option<&'a TagDescriptor>)
    ensures
        match r {
            Some(d) => find_tag(descs@, id@) == Some(*d),
            None => find_tag(descs@, id@) is None,
        },
{
    let mut j: usize = 0;
    while j < descs.len()
        invariant
            j <= descs@.len(),
            forall|l: int| 0 <= l < j ==> descs@[l].id@ != id@,
        decreases descs@.len() - j,
    {
        if bytes_eq(descs[j].id.as_slice(), id) {
            proof {
                lemma_find_tag_at(descs@, id@, j as int);
            }
            return Some(&descs[j]);
        }
        j += 1;
    }
    proof {
        lemma_find_tag_none(descs@, id@);
    }
    None
}

impl Catalog {
    /// Total number of data columns: the 6 fixed columns, one per INFO tag
    /// and one per (sample, FORMAT tag) pair. Every data row and both header
    /// rows have exactly this many cells.
    pub open spec fn width(self) -> int {
        6 + self.info@.len() as int + self.samples@.len() as int * self.format@.len() as int
    }

    /// The column count must fit the machine's field counter.
    pub open spec fn wf(self) -> bool {
        self.width() <= usize::MAX as int
    }

    /// Builds the catalog from the header's sample names and its ordered
    /// INFO and FORMAT descriptor lists.
    pub fn new(samples: Vec<Vec<u8>>, info: Vec<TagDescriptor>, format: Vec<TagDescriptor>) -> (r:
        Catalog)
        ensures
            r.samples == samples,
            r.info == info,
            r.format == format,
    {
        Catalog { samples, info, format }
    }

    /// Describes an INFO tag: the first INFO descriptor declared under `id`,
    /// or `None` when the header does not list the tag.
    pub fn describe_info(&self, id: &[u8]) -> (r: Option<&TagDescriptor>)
        ensures
            match r {
                Some(d) => find_tag(self.info@, id@) == Some(*d),
                None => find_tag(self.info@, id@) is None,
            },
    {
        find_in(&self.info, id)
    }

    /// Describes a FORMAT tag: the first FORMAT descriptor declared under
    /// `id`, or `None` when the header does not list the tag.
    pub fn describe_format(&self, id: &[u8]) -> (r: Option<&TagDescriptor>)
        ensures
            match r {
                Some(d) => find_tag(self.format@, id@) == Some(*d),
                None => find_tag(self.format@, id@) is None,
            },
    {
        find_in(&self.format, id)
    }
}

} // verus!
