//! The allele flattener and header emitter.
//!
//! For each record, one row per alternate allele: the six fixed columns,
//! then one cell per INFO tag in catalog order, then one cell per
//! (sample, FORMAT tag) pair in sample-major order. A tag's cell holds the
//! value selected for the row's alternate allele according to the tag's
//! declared cardinality: a fixed, variable or per-genotype count selects the
//! first value; a per-alternate count selects the alternate's own position;
//! a per-allele count skips the reference value.
//!
//! A value list shorter than the selected position, like a tag absent from
//! the record or undefined in the header, renders as an empty cell rather
//! than aborting. A FORMAT tag whose cardinality cannot be addressed by
//! allele position, or one typed as a flag, is a schema error, fatal to the
//! whole conversion and surfaced before any cell of the record is written.

use vstd::prelude::*;

use crate::record::format_value_of;
use crate::record::info_value_of;
use crate::record::Record;
use crate::record::TagValue;
use crate::tags::Cardinality;
use crate::tags::Catalog;
use crate::tags::TagDecl;
use crate::tags::TagDescriptor;
use crate::tags::TagType;
use crate::valuefmt::copy_bytes;
use crate::valuefmt::flag_bytes;
use crate::valuefmt::flag_to_text;
use crate::valuefmt::fmt_int;
use crate::valuefmt::int_to_text;
use crate::valuefmt::opt_text_cell;
use crate::valuefmt::opt_to_text;
use crate::valuefmt::append_bytes;
use crate::writer::field_sep;
use crate::writer::Writer;
use crate::ParseError;

verus! {

/// The bytes of a row's cells, tab-separated, without the line terminator.
pub open spec fn fields_bytes(cells: Seq<Seq<u8>>) -> Seq<u8>
    decreases cells.len(),
{
    if cells.len() == 0 {
        Seq::empty()
    } else if cells.len() == 1 {
        cells[0]
    } else {
        fields_bytes(cells.drop_last()) + seq![9u8] + cells.last()
    }
}

/// The bytes of one finished row: tab-separated cells, then a newline.
pub open spec fn row_bytes(cells: Seq<Seq<u8>>) -> Seq<u8> {
    fields_bytes(cells) + seq![10u8]
}

proof fn lemma_fields_push(cells: Seq<Seq<u8>>, c: Seq<u8>)
    ensures
        fields_bytes(cells.push(c)) == fields_bytes(cells) + field_sep(cells.len()) + c,
    decreases cells.len(),
{
    if cells.len() == 0 {
        assert(cells.push(c) =~= seq![c]);
        assert(fields_bytes(cells) + field_sep(cells.len()) + c =~= c);
    } else {
        assert(cells.push(c).drop_last() =~= cells);
        assert(cells.push(c).last() == c);
        assert(fields_bytes(cells) + field_sep(cells.len()) + c =~= fields_bytes(cells) + seq![9u8]
            + c);
    }
}

/// The position within a tag's value list that belongs to the row of
/// alternate allele `i` (0-based over the alternates): a per-alternate
/// count selects `i`, a per-allele count selects `i + 1` (position 0 holds
/// the reference's value), every other class selects the first value.
pub open spec fn value_index(card: Cardinality, i: int) -> int {
    match card {
        Cardinality::PerAltAllele => i,
        Cardinality::PerAllele => i + 1,
        _ => 0,
    }
}

/// The text of one decoded value at position `idx` of a value list: empty
/// when the list is absent, too short, or of the wrong shape for the
/// declared type; the rendered value otherwise.
pub open spec fn value_cell(ty: TagType, v: TagValue, idx: int) -> Seq<u8> {
    match ty {
        TagType::Integer => match v {
            TagValue::Ints(vs) => if 0 <= idx < vs@.len() {
                fmt_int(vs@[idx] as int)
            } else {
                Seq::empty()
            },
            _ => Seq::empty(),
        },
        TagType::Float => match v {
            TagValue::Floats(vs) => if 0 <= idx < vs@.len() {
                opt_text_cell(vs@[idx])
            } else {
                Seq::empty()
            },
            _ => Seq::empty(),
        },
        TagType::Text => match v {
            TagValue::Texts(vs) => if 0 <= idx < vs@.len() {
                vs@[idx]@
            } else {
                Seq::empty()
            },
            _ => Seq::empty(),
        },
        TagType::Flag => match v {
            TagValue::Flag(b) => flag_bytes(b),
            _ => flag_bytes(false),
        },
    }
}

/// Whether a record-level flag tag is set: present with a set flag value.
pub open spec fn info_flag_set(entries: Seq<crate::record::InfoEntry>, id: Seq<u8>) -> bool {
    match info_value_of(entries, id) {
        Some(TagValue::Flag(b)) => b,
        _ => false,
    }
}

/// The cell an INFO tag contributes to the row of alternate allele `i`:
/// empty when the tag is undefined in the header or absent from the record;
/// the flag text for a flag tag; otherwise the value at the tag's resolved
/// position.
pub open spec fn info_cell(desc: TagDescriptor, rec: Record, i: int) -> Seq<u8> {
    match desc.decl {
        None => Seq::empty(),
        Some(decl) => match decl.ty {
            TagType::Flag => flag_bytes(info_flag_set(rec.info@, desc.id@)),
            _ => match info_value_of(rec.info@, desc.id@) {
                None => Seq::empty(),
                Some(v) => value_cell(decl.ty, v, value_index(decl.card, i)),
            },
        },
    }
}

/// The genotype tag's identifier.
pub open spec fn gt_id() -> Seq<u8> {
    seq![71u8, 84u8]
}

/// Whether a cardinality class is addressable by allele position.
pub open spec fn positional(card: Cardinality) -> bool {
    match card {
        Cardinality::Fixed(_) => true,
        Cardinality::PerAltAllele => true,
        Cardinality::PerAllele => true,
        _ => false,
    }
}

/// The schema error a FORMAT descriptor raises, if any: a cardinality that
/// allele position cannot address, or a flag-typed tag. The genotype tag is
/// special-cased (its cell is the precomputed genotype text, whatever the
/// declaration says), and an undefined tag renders empty instead.
pub open spec fn format_desc_err(desc: TagDescriptor) -> Option<ParseError> {
    match desc.decl {
        None => None,
        Some(decl) => if desc.id@ == gt_id() {
            None
        } else if !positional(decl.card) {
            Some(ParseError::UnsupportedTagLength)
        } else if decl.ty is Flag {
            Some(ParseError::FlagFormatTag)
        } else {
            None
        },
    }
}

/// The first schema error among the FORMAT descriptors, in catalog order.
pub open spec fn first_format_err(descs: Seq<TagDescriptor>) -> Option<ParseError>
    decreases descs.len(),
{
    if descs.len() == 0 {
        None
    } else if format_desc_err(descs[0]) is Some {
        format_desc_err(descs[0])
    } else {
        first_format_err(descs.drop_first())
    }
}

/// The cell a FORMAT tag contributes for sample `s` on the row of alternate
/// allele `i`: empty when the tag is undefined or the sample carries no
/// value; the sample's precomputed genotype text for the genotype tag;
/// otherwise the sample's value at the tag's resolved position.
pub open spec fn format_cell(desc: TagDescriptor, rec: Record, s: int, i: int) -> Seq<u8> {
    match desc.decl {
        None => Seq::empty(),
        Some(decl) => if desc.id@ == gt_id() {
            if 0 <= s < rec.genotypes@.len() {
                rec.genotypes@[s]@
            } else {
                Seq::empty()
            }
        } else {
            match format_value_of(rec.format@, desc.id@, s) {
                None => Seq::empty(),
                Some(v) => value_cell(decl.ty, v, value_index(decl.card, i)),
            }
        },
    }
}

/// The filter cell: the filter names joined by semicolons in declaration
/// order; empty when the record's filter is unset.
pub open spec fn filters_cell(fs: Seq<Vec<u8>>) -> Seq<u8>
    decreases fs.len(),
{
    if fs.len() == 0 {
        Seq::empty()
    } else if fs.len() == 1 {
        fs[0]@
    } else {
        filters_cell(fs.drop_last()) + seq![59u8] + fs.last()@
    }
}

proof fn lemma_filters_push(fs: Seq<Vec<u8>>, f: Vec<u8>)
    ensures
        filters_cell(fs.push(f)) == if fs.len() == 0 {
            f@
        } else {
            filters_cell(fs) + seq![59u8] + f@
        },
    decreases fs.len(),
{
    if fs.len() == 0 {
        assert(fs.push(f) =~= seq![f]);
    } else {
        assert(fs.push(f).drop_last() =~= fs);
        assert(fs.push(f).last() == f);
    }
}

/// The six fixed cells of the row for alternate allele `i`: contig,
/// 1-based position, reference allele, this alternate allele, quality,
/// filter.
pub open spec fn fixed_cells(rec: Record, i: int) -> Seq<Seq<u8>> {
    seq![
        rec.contig@,
        fmt_int(rec.pos + 1),
        rec.alleles@[0]@,
        rec.alleles@[i + 1]@,
        opt_text_cell(rec.qual),
        filters_cell(rec.filters@),
    ]
}

/// The INFO cells of a row, in catalog order.
pub open spec fn info_cells(descs: Seq<TagDescriptor>, rec: Record, i: int) -> Seq<Seq<u8>> {
    Seq::new(descs.len(), |t: int| info_cell(descs[t], rec, i))
}

/// One sample's FORMAT cells, in catalog order.
pub open spec fn sample_cells(descs: Seq<TagDescriptor>, rec: Record, s: int, i: int) -> Seq<
    Seq<u8>,
> {
    Seq::new(descs.len(), |t: int| format_cell(descs[t], rec, s, i))
}

/// The FORMAT cells of the first `ns` samples, sample-major.
pub open spec fn all_sample_cells(descs: Seq<TagDescriptor>, rec: Record, ns: nat, i: int) -> Seq<
    Seq<u8>,
>
    decreases ns,
{
    if ns == 0 {
        Seq::empty()
    } else {
        all_sample_cells(descs, rec, (ns - 1) as nat, i) + sample_cells(descs, rec, ns - 1, i)
    }
}

/// All cells of the data row for alternate allele `i`, in column order.
pub open spec fn row_cells(cat: Catalog, rec: Record, i: int) -> Seq<Seq<u8>> {
    fixed_cells(rec, i) + info_cells(cat.info@, rec, i) + all_sample_cells(
        cat.format@,
        rec,
        cat.samples@.len(),
        i,
    )
}

/// The bytes of the first `k` data rows of a record.
pub open spec fn rows_bytes(cat: Catalog, rec: Record, k: nat) -> Seq<u8>
    decreases k,
{
    if k == 0 {
        Seq::empty()
    } else {
        rows_bytes(cat, rec, (k - 1) as nat) + row_bytes(row_cells(cat, rec, k - 1))
    }
}

/// Maps a cardinality class and an alternate-allele position to the value
/// position it selects.
pub fn resolve_index(card: Cardinality, i: usize) -> (r: usize)
    requires
        i < usize::MAX,
    ensures
        r as int == value_index(card, i as int),
{
    match card {
        Cardinality::PerAltAllele => i,
        Cardinality::PerAllele => i + 1,
        _ => 0,
    }
}

/// True when `id` is the genotype tag's identifier.
fn is_gt(id: &[u8]) -> (r: bool)
    ensures
        r == (id@ == gt_id()),
{
    let gt: Vec<u8> = vec![71u8, 84u8];
    proof {
        assert(gt@ =~= gt_id());
    }
    crate::tags::bytes_eq(id, gt.as_slice())
}

/// Renders one decoded value at position `idx` of a value list.
fn value_to_text(ty: TagType, v: &TagValue, idx: usize) -> (r: Vec<u8>)
    ensures
        r@ == value_cell(ty, *v, idx as int),
{
    match ty {
        TagType::Integer => match v {
            TagValue::Ints(vs) => if idx < vs.len() {
                int_to_text(vs[idx])
            } else {
                Vec::new()
            },
            _ => Vec::new(),
        },
        TagType::Float => match v {
            TagValue::Floats(vs) => if idx < vs.len() {
                opt_to_text(&vs[idx])
            } else {
                Vec::new()
            },
            _ => Vec::new(),
        },
        TagType::Text => match v {
            TagValue::Texts(vs) => if idx < vs.len() {
                copy_bytes(&vs[idx])
            } else {
                Vec::new()
            },
            _ => Vec::new(),
        },
        TagType::Flag => match v {
            TagValue::Flag(b) => flag_to_text(*b),
            _ => flag_to_text(false),
        },
    }
}

/// Renders the cell an INFO tag contributes to the row of alternate `i`.
pub fn info_cell_text(desc: &TagDescriptor, rec: &Record, i: usize) -> (r: Vec<u8>)
    requires
        i < usize::MAX,
    ensures
        r@ == info_cell(*desc, *rec, i as int),
{
    match desc.decl {
        None => Vec::new(),
        Some(decl) => match decl.ty {
            TagType::Flag => {
                let vopt = rec.info_value(desc.id.as_slice());
                let b: bool = match vopt {
                    Some(v) => match v {
                        TagValue::Flag(bb) => *bb,
                        _ => false,
                    },
                    None => false,
                };
                assert(b == info_flag_set(rec.info@, desc.id@));
                flag_to_text(b)
            },
            _ => {
                match rec.info_value(desc.id.as_slice()) {
                    None => Vec::new(),
                    Some(v) => {
                        let idx = resolve_index(decl.card, i);
                        value_to_text(decl.ty, v, idx)
                    },
                }
            },
        },
    }
}

/// Renders the cell a FORMAT tag contributes for sample `s` on the row of
/// alternate `i`.
pub fn format_cell_text(desc: &TagDescriptor, rec: &Record, s: usize, i: usize) -> (r: Vec<u8>)
    requires
        i < usize::MAX,
    ensures
        r@ == format_cell(*desc, *rec, s as int, i as int),
{
    match desc.decl {
        None => Vec::new(),
        Some(decl) => {
            if is_gt(desc.id.as_slice()) {
                if s < rec.genotypes.len() {
                    copy_bytes(&rec.genotypes[s])
                } else {
                    Vec::new()
                }
            } else {
                match rec.format_value(desc.id.as_slice(), s) {
                    None => Vec::new(),
                    Some(v) => {
                        let idx = resolve_index(decl.card, i);
                        value_to_text(decl.ty, v, idx)
                    },
                }
            }
        },
    }
}

/// Renders the filter cell: the names joined by semicolons, in declaration
/// order.
pub fn render_filters(fs: &Vec<Vec<u8>>) -> (r: Vec<u8>)
    ensures
        r@ == filters_cell(fs@),
{
    let mut out: Vec<u8> = Vec::new();
    let mut j: usize = 0;
    while j < fs.len()
        invariant
            j <= fs@.len(),
            out@ == filters_cell(fs@.take(j as int)),
        decreases fs@.len() - j,
    {
        if j > 0 {
            out.push(59);
        }
        append_bytes(&mut out, fs[j].as_slice());
        proof {
            lemma_filters_push(fs@.take(j as int), fs@[j as int]);
            assert(fs@.take(j + 1) =~= fs@.take(j as int).push(fs@[j as int]));
        }
        j += 1;
    }
    proof {
        assert(fs@.take(fs@.len() as int) =~= fs@);
    }
    out
}

/// The schema error a FORMAT descriptor raises, if any.
fn desc_error(desc: &TagDescriptor) -> (r: Option<ParseError>)
    ensures
        r == format_desc_err(*desc),
{
    match desc.decl {
        None => None,
        Some(decl) => {
            if is_gt(desc.id.as_slice()) {
                None
            } else {
                let pos_ok = match decl.card {
                    Cardinality::Fixed(_) => true,
                    Cardinality::PerAltAllele => true,
                    Cardinality::PerAllele => true,
                    _ => false,
                };
                if !pos_ok {
                    Some(ParseError::UnsupportedTagLength)
                } else {
                    match decl.ty {
                        TagType::Flag => Some(ParseError::FlagFormatTag),
                        _ => None,
                    }
                }
            }
        },
    }
}

proof fn lemma_first_format_err_at(descs: Seq<TagDescriptor>, j: int)
    requires
        0 <= j < descs.len(),
        forall|l: int| 0 <= l < j ==> format_desc_err(descs[l]) is None,
        format_desc_err(descs[j]) is Some,
    ensures
        first_format_err(descs) == format_desc_err(descs[j]),
    decreases j,
{
    if j > 0 {
        lemma_first_format_err_at(descs.drop_first(), j - 1);
    }
}

proof fn lemma_first_format_err_none(descs: Seq<TagDescriptor>)
    requires
        forall|l: int| 0 <= l < descs.len() ==> format_desc_err(descs[l]) is None,
    ensures
        first_format_err(descs) is None,
    decreases descs.len(),
{
    if descs.len() > 0 {
        lemma_first_format_err_none(descs.drop_first());
    }
}

/// Scans the FORMAT descriptors for the first schema error.
fn check_format_tags(descs: &Vec<TagDescriptor>) -> (r: Option<ParseError>)
    ensures
        r == first_format_err(descs@),
{
    let mut j: usize = 0;
    while j < descs.len()
        invariant
            j <= descs@.len(),
            forall|l: int| 0 <= l < j ==> format_desc_err(descs@[l]) is None,
        decreases descs@.len() - j,
    {
        match desc_error(&descs[j]) {
            Some(e) => {
                proof {
                    lemma_first_format_err_at(descs@, j as int);
                }
                return Some(e);
            },
            None => {},
        }
        j += 1;
    }
    proof {
        lemma_first_format_err_none(descs@);
    }
    None
}

/// The constant label that groups the shared columns of the header's first
/// row.
pub open spec fn group_label() -> Seq<u8> {
    seq![86u8, 65u8, 82u8, 73u8, 65u8, 78u8, 84u8]
}

/// `n` copies of one cell.
pub open spec fn repeat_cell(c: Seq<u8>, n: nat) -> Seq<Seq<u8>> {
    Seq::new(n, |j: int| c)
}

/// The grouping cells of the per-sample block: each sample's name repeated
/// once per FORMAT tag, in sample order.
pub open spec fn sample_group_cells(samples: Seq<Vec<u8>>, nfmt: nat) -> Seq<Seq<u8>>
    decreases samples.len(),
{
    if samples.len() == 0 {
        Seq::empty()
    } else {
        sample_group_cells(samples.drop_last(), nfmt) + repeat_cell(samples.last()@, nfmt)
    }
}

/// The cells of the header's grouping row: the group label once per shared
/// column, then each sample's name once per FORMAT tag.
pub open spec fn group_row_cells(cat: Catalog) -> Seq<Seq<u8>> {
    repeat_cell(group_label(), (6 + cat.info@.len()) as nat) + sample_group_cells(
        cat.samples@,
        cat.format@.len(),
    )
}

/// The identifiers of a descriptor list, as cells in catalog order.
pub open spec fn tag_id_cells(descs: Seq<TagDescriptor>) -> Seq<Seq<u8>> {
    Seq::new(descs.len(), |t: int| descs[t].id@)
}

/// The names of the six fixed columns.
pub open spec fn fixed_name_cells() -> Seq<Seq<u8>> {
    seq![
        seq![67u8, 72u8, 82u8, 79u8, 77u8],
        seq![80u8, 79u8, 83u8],
        seq![82u8, 69u8, 70u8],
        seq![65u8, 76u8, 84u8],
        seq![81u8, 85u8, 65u8, 76u8],
        seq![70u8, 73u8, 76u8, 84u8, 69u8, 82u8],
    ]
}

/// The naming cells of the per-sample block: the FORMAT tag identifiers
/// repeated once per sample, in sample-major order.
pub open spec fn sample_name_cells(samples: Seq<Vec<u8>>, descs: Seq<TagDescriptor>) -> Seq<
    Seq<u8>,
>
    decreases samples.len(),
{
    if samples.len() == 0 {
        Seq::empty()
    } else {
        sample_name_cells(samples.drop_last(), descs) + tag_id_cells(descs)
    }
}

/// The cells of the header's names row: the fixed column names, the INFO
/// tag identifiers, then per sample the FORMAT tag identifiers.
pub open spec fn names_row_cells(cat: Catalog) -> Seq<Seq<u8>> {
    fixed_name_cells() + tag_id_cells(cat.info@) + sample_name_cells(cat.samples@, cat.format@)
}

/// The two-row table header.
pub open spec fn header_bytes(cat: Catalog) -> Seq<u8> {
    row_bytes(group_row_cells(cat)) + row_bytes(names_row_cells(cat))
}

pub proof fn lemma_sample_group_len(samples: Seq<Vec<u8>>, nfmt: nat)
    ensures
        sample_group_cells(samples, nfmt).len() == samples.len() * nfmt,
    decreases samples.len(),
{
    if samples.len() > 0 {
        lemma_sample_group_len(samples.drop_last(), nfmt);
        assert((samples.len() - 1) * nfmt + nfmt == samples.len() * nfmt) by (nonlinear_arith);
    } else {
        assert(samples.len() * nfmt == 0) by (nonlinear_arith)
            requires samples.len() == 0;
    }
}

pub proof fn lemma_sample_name_len(samples: Seq<Vec<u8>>, descs: Seq<TagDescriptor>)
    ensures
        sample_name_cells(samples, descs).len() == samples.len() * descs.len(),
    decreases samples.len(),
{
    if samples.len() > 0 {
        lemma_sample_name_len(samples.drop_last(), descs);
        assert((samples.len() - 1) * descs.len() + descs.len() == samples.len() * descs.len())
            by (nonlinear_arith);
    } else {
        assert(samples.len() * descs.len() == 0) by (nonlinear_arith)
            requires samples.len() == 0;
    }
}

pub proof fn lemma_all_sample_cells_len(descs: Seq<TagDescriptor>, rec: Record, ns: nat, i: int)
    ensures
        all_sample_cells(descs, rec, ns, i).len() == ns * descs.len(),
    decreases ns,
{
    if ns > 0 {
        lemma_all_sample_cells_len(descs, rec, (ns - 1) as nat, i);
        assert((ns - 1) * descs.len() + descs.len() == ns * descs.len()) by (nonlinear_arith);
    } else {
        assert(ns * descs.len() == 0) by (nonlinear_arith)
            requires ns == 0;
    }
}

proof fn lemma_partial_width_bound(ninfo: int, nsamp: int, nfmt: int, s: int, t: int)
    requires
        0 <= ninfo,
        0 <= s < nsamp,
        0 <= t < nfmt,
    ensures
        6 + ninfo + s * nfmt + t < 6 + ninfo + nsamp * nfmt,
        0 <= s * nfmt,
{
    assert(s * nfmt + t < nsamp * nfmt) by (nonlinear_arith)
        requires
            0 <= s < nsamp,
            0 <= t < nfmt,
    ;
    assert(0 <= s * nfmt) by (nonlinear_arith)
        requires
            0 <= s,
            0 <= nfmt,
    ;
}

/// Emits the header's grouping row.
fn write_group_row(w: &mut Writer, cat: &Catalog)
    requires
        cat.wf(),
        old(w).fields() == 0,
    ensures
        final(w).bytes() == old(w).bytes() + row_bytes(group_row_cells(*cat)),
        final(w).fields() == 0,
{
    proof {
        assert(0 <= cat.samples@.len() as int * cat.format@.len() as int) by (nonlinear_arith);
    }
    let ghost start = w.bytes();
    let label: Vec<u8> = vec![86u8, 65u8, 82u8, 73u8, 65u8, 78u8, 84u8];
    proof {
        assert(label@ =~= group_label());
    }
    let ninfo = cat.info.len();
    let nfmt = cat.format.len();
    let nsamp = cat.samples.len();
    let common_n: usize = 6 + ninfo;
    let ghost mut done: Seq<Seq<u8>> = Seq::empty();
    proof {
        assert(w.bytes() =~= start + fields_bytes(done));
    }
    let mut j: usize = 0;
    while j < common_n
        invariant
            j <= common_n,
            common_n == 6 + cat.info@.len(),
            common_n <= usize::MAX,
            label@ == group_label(),
            w.bytes() == start + fields_bytes(done),
            w.fields() == done.len(),
            done == repeat_cell(group_label(), j as nat),
        decreases common_n - j,
    {
        w.write_field(label.as_slice());
        proof {
            lemma_fields_push(done, label@);
            done = done.push(label@);
            assert(done =~= repeat_cell(group_label(), (j + 1) as nat));
        }
        j += 1;
    }
    let mut s: usize = 0;
    while s < nsamp
        invariant
            s <= nsamp,
            nsamp == cat.samples@.len(),
            nfmt == cat.format@.len(),
            cat.wf(),
            w.bytes() == start + fields_bytes(done),
            w.fields() == done.len(),
            done == repeat_cell(group_label(), (6 + cat.info@.len()) as nat) + sample_group_cells(
                cat.samples@.take(s as int),
                nfmt as nat,
            ),
            done.len() == 6 + cat.info@.len() + s as int * nfmt as int,
        decreases nsamp - s,
    {
        let ghost outer = done;
        let mut t: usize = 0;
        while t < nfmt
            invariant
                t <= nfmt,
                s < nsamp,
                nsamp == cat.samples@.len(),
                nfmt == cat.format@.len(),
                cat.wf(),
                w.bytes() == start + fields_bytes(done),
                w.fields() == done.len(),
                done == outer + repeat_cell(cat.samples@[s as int]@, t as nat),
                outer == repeat_cell(group_label(), (6 + cat.info@.len()) as nat)
                    + sample_group_cells(cat.samples@.take(s as int), nfmt as nat),
                outer.len() == 6 + cat.info@.len() + s as int * nfmt as int,
                done.len() == outer.len() + t,
            decreases nfmt - t,
        {
            proof {
                lemma_partial_width_bound(
                    cat.info@.len() as int,
                    nsamp as int,
                    nfmt as int,
                    s as int,
                    t as int,
                );
            }
            w.write_field(cat.samples[s].as_slice());
            proof {
                lemma_fields_push(done, cat.samples@[s as int]@);
                done = done.push(cat.samples@[s as int]@);
                assert(done =~= outer + repeat_cell(cat.samples@[s as int]@, (t + 1) as nat));
            }
            t += 1;
        }
        proof {
            assert(cat.samples@.take(s + 1).drop_last() =~= cat.samples@.take(s as int));
            assert(done =~= repeat_cell(group_label(), (6 + cat.info@.len()) as nat)
                + sample_group_cells(cat.samples@.take(s + 1), nfmt as nat));
            assert((s + 1) * nfmt as int == s as int * nfmt as int + nfmt as int)
                by (nonlinear_arith);
        }
        s += 1;
    }
    proof {
        assert(cat.samples@.take(cat.samples@.len() as int) =~= cat.samples@);
        assert(done =~= group_row_cells(*cat));
    }
    w.newline();
    proof {
        assert(w.bytes() =~= start + row_bytes(group_row_cells(*cat)));
    }
}

/// Emits the header's names row.
fn write_names_row(w: &mut Writer, cat: &Catalog)
    requires
        cat.wf(),
        old(w).fields() == 0,
    ensures
        final(w).bytes() == old(w).bytes() + row_bytes(names_row_cells(*cat)),
        final(w).fields() == 0,
{
    proof {
        assert(0 <= cat.samples@.len() as int * cat.format@.len() as int) by (nonlinear_arith);
    }
    let ghost start2 = w.bytes();
    let ninfo = cat.info.len();
    let nfmt = cat.format.len();
    let nsamp = cat.samples.len();
    let ghost mut done: Seq<Seq<u8>> = Seq::empty();
    proof {
        assert(w.bytes() =~= start2 + fields_bytes(done));
    }
    let chrom: Vec<u8> = vec![67u8, 72u8, 82u8, 79u8, 77u8];
    let pos_name: Vec<u8> = vec![80u8, 79u8, 83u8];
    let ref_name: Vec<u8> = vec![82u8, 69u8, 70u8];
    let alt_name: Vec<u8> = vec![65u8, 76u8, 84u8];
    let qual_name: Vec<u8> = vec![81u8, 85u8, 65u8, 76u8];
    let filter_name: Vec<u8> = vec![70u8, 73u8, 76u8, 84u8, 69u8, 82u8];
    w.write_field(chrom.as_slice());
    proof {
        lemma_fields_push(done, chrom@);
        done = done.push(chrom@);
    }
    w.write_field(pos_name.as_slice());
    proof {
        lemma_fields_push(done, pos_name@);
        done = done.push(pos_name@);
    }
    w.write_field(ref_name.as_slice());
    proof {
        lemma_fields_push(done, ref_name@);
        done = done.push(ref_name@);
    }
    w.write_field(alt_name.as_slice());
    proof {
        lemma_fields_push(done, alt_name@);
        done = done.push(alt_name@);
    }
    w.write_field(qual_name.as_slice());
    proof {
        lemma_fields_push(done, qual_name@);
        done = done.push(qual_name@);
    }
    w.write_field(filter_name.as_slice());
    proof {
        lemma_fields_push(done, filter_name@);
        done = done.push(filter_name@);
        assert(done =~= fixed_name_cells());
    }
    let mut j2: usize = 0;
    while j2 < ninfo
        invariant
            j2 <= ninfo,
            ninfo == cat.info@.len(),
            cat.wf(),
            w.bytes() == start2 + fields_bytes(done),
            w.fields() == done.len(),
            done == fixed_name_cells() + tag_id_cells(cat.info@.take(j2 as int)),
            done.len() == 6 + j2,
        decreases ninfo - j2,
    {
        w.write_field(cat.info[j2].id.as_slice());
        proof {
            lemma_fields_push(done, cat.info@[j2 as int].id@);
            done = done.push(cat.info@[j2 as int].id@);
            assert(done =~= fixed_name_cells() + tag_id_cells(cat.info@.take(j2 + 1)));
        }
        j2 += 1;
    }
    proof {
        assert(cat.info@.take(cat.info@.len() as int) =~= cat.info@);
    }
    let mut s2: usize = 0;
    while s2 < nsamp
        invariant
            s2 <= nsamp,
            nsamp == cat.samples@.len(),
            nfmt == cat.format@.len(),
            ninfo == cat.info@.len(),
            cat.wf(),
            w.bytes() == start2 + fields_bytes(done),
            w.fields() == done.len(),
            done == fixed_name_cells() + tag_id_cells(cat.info@) + sample_name_cells(
                cat.samples@.take(s2 as int),
                cat.format@,
            ),
            done.len() == 6 + cat.info@.len() + s2 as int * nfmt as int,
        decreases nsamp - s2,
    {
        let ghost outer = done;
        let mut t2: usize = 0;
        while t2 < nfmt
            invariant
                t2 <= nfmt,
                s2 < nsamp,
                nsamp == cat.samples@.len(),
                nfmt == cat.format@.len(),
                ninfo == cat.info@.len(),
                cat.wf(),
                w.bytes() == start2 + fields_bytes(done),
                w.fields() == done.len(),
                done == outer + tag_id_cells(cat.format@.take(t2 as int)),
                outer == fixed_name_cells() + tag_id_cells(cat.info@) + sample_name_cells(
                    cat.samples@.take(s2 as int),
                    cat.format@,
                ),
                outer.len() == 6 + cat.info@.len() + s2 as int * nfmt as int,
                done.len() == outer.len() + t2,
            decreases nfmt - t2,
        {
            proof {
                lemma_partial_width_bound(
                    cat.info@.len() as int,
                    nsamp as int,
                    nfmt as int,
                    s2 as int,
                    t2 as int,
                );
            }
            w.write_field(cat.format[t2].id.as_slice());
            proof {
                lemma_fields_push(done, cat.format@[t2 as int].id@);
                done = done.push(cat.format@[t2 as int].id@);
                assert(done =~= outer + tag_id_cells(cat.format@.take(t2 + 1)));
            }
            t2 += 1;
        }
        proof {
            assert(cat.format@.take(cat.format@.len() as int) =~= cat.format@);
            assert(cat.samples@.take(s2 + 1).drop_last() =~= cat.samples@.take(s2 as int));
            assert(done =~= fixed_name_cells() + tag_id_cells(cat.info@) + sample_name_cells(
                cat.samples@.take(s2 + 1),
                cat.format@,
            ));
            assert((s2 + 1) * nfmt as int == s2 as int * nfmt as int + nfmt as int)
                by (nonlinear_arith);
        }
        s2 += 1;
    }
    proof {
        assert(cat.samples@.take(cat.samples@.len() as int) =~= cat.samples@);
        assert(done =~= names_row_cells(*cat));
    }
    w.newline();
    proof {
        assert(w.bytes() =~= start2 + row_bytes(names_row_cells(*cat)));
    }
}

/// Emits the two-row table header: the grouping row, then the names row.
pub fn write_header(w: &mut Writer, cat: &Catalog)
    requires
        cat.wf(),
        old(w).fields() == 0,
    ensures
        final(w).bytes() == old(w).bytes() + header_bytes(*cat),
        final(w).fields() == 0,
{
    let ghost start = w.bytes();
    write_group_row(w, cat);
    write_names_row(w, cat);
    proof {
        assert(w.bytes() =~= start + header_bytes(*cat));
    }
}

/// Emits the data row for alternate allele `i` of one record.
fn write_record_row(w: &mut Writer, cat: &Catalog, rec: &Record, i: usize)
    requires
        cat.wf(),
        rec.wf(),
        old(w).fields() == 0,
        (i as nat) < rec.alt_count(),
    ensures
        final(w).bytes() == old(w).bytes() + row_bytes(row_cells(*cat, *rec, i as int)),
        final(w).fields() == 0,
{
    proof {
        assert(0 <= cat.samples@.len() as int * cat.format@.len() as int) by (nonlinear_arith);
    }
    let ghost start = w.bytes();
    let n_all = rec.alleles.len();
    proof {
        assert(i + 1 < n_all);
    }
    let ninfo = cat.info.len();
    let nfmt = cat.format.len();
    let nsamp = cat.samples.len();
    let ghost mut done: Seq<Seq<u8>> = Seq::empty();
    proof {
        assert(w.bytes() =~= start + fields_bytes(done));
    }
    w.write_field(rec.contig.as_slice());
    proof {
        lemma_fields_push(done, rec.contig@);
        done = done.push(rec.contig@);
    }
    w.write_integer(rec.pos + 1);
    proof {
        lemma_fields_push(done, fmt_int(rec.pos + 1));
        done = done.push(fmt_int(rec.pos + 1));
    }
    w.write_field(rec.alleles[0].as_slice());
    proof {
        lemma_fields_push(done, rec.alleles@[0]@);
        done = done.push(rec.alleles@[0]@);
    }
    w.write_field(rec.alleles[i + 1].as_slice());
    proof {
        lemma_fields_push(done, rec.alleles@[i + 1]@);
        done = done.push(rec.alleles@[i + 1]@);
    }
    w.write_float(&rec.qual);
    proof {
        lemma_fields_push(done, opt_text_cell(rec.qual));
        done = done.push(opt_text_cell(rec.qual));
    }
    let fc = render_filters(&rec.filters);
    w.write_field(fc.as_slice());
    proof {
        lemma_fields_push(done, filters_cell(rec.filters@));
        done = done.push(filters_cell(rec.filters@));
        assert(done =~= fixed_cells(*rec, i as int));
    }
    let mut t: usize = 0;
    while t < ninfo
        invariant
            t <= ninfo,
            ninfo == cat.info@.len(),
            cat.wf(),
            rec.wf(),
            (i as nat) < rec.alt_count(),
            i < usize::MAX,
            w.bytes() == start + fields_bytes(done),
            w.fields() == done.len(),
            done == fixed_cells(*rec, i as int) + info_cells(
                cat.info@.take(t as int),
                *rec,
                i as int,
            ),
            done.len() == 6 + t,
        decreases ninfo - t,
    {
        let cell = info_cell_text(&cat.info[t], rec, i);
        w.write_field(cell.as_slice());
        proof {
            lemma_fields_push(done, cell@);
            done = done.push(info_cell(cat.info@[t as int], *rec, i as int));
            assert(done =~= fixed_cells(*rec, i as int) + info_cells(
                cat.info@.take(t + 1),
                *rec,
                i as int,
            ));
        }
        t += 1;
    }
    proof {
        assert(cat.info@.take(cat.info@.len() as int) =~= cat.info@);
    }
    let mut s: usize = 0;
    while s < nsamp
        invariant
            s <= nsamp,
            nsamp == cat.samples@.len(),
            nfmt == cat.format@.len(),
            ninfo == cat.info@.len(),
            cat.wf(),
            rec.wf(),
            (i as nat) < rec.alt_count(),
            i < usize::MAX,
            w.bytes() == start + fields_bytes(done),
            w.fields() == done.len(),
            done == fixed_cells(*rec, i as int) + info_cells(cat.info@, *rec, i as int)
                + all_sample_cells(cat.format@, *rec, s as nat, i as int),
            done.len() == 6 + cat.info@.len() + s as int * nfmt as int,
        decreases nsamp - s,
    {
        let ghost outer = done;
        let mut t2: usize = 0;
        while t2 < nfmt
            invariant
                t2 <= nfmt,
                s < nsamp,
                nsamp == cat.samples@.len(),
                nfmt == cat.format@.len(),
                ninfo == cat.info@.len(),
                cat.wf(),
                rec.wf(),
                (i as nat) < rec.alt_count(),
                i < usize::MAX,
                w.bytes() == start + fields_bytes(done),
                w.fields() == done.len(),
                done == outer + sample_cells(cat.format@.take(t2 as int), *rec, s as int, i as int),
                outer == fixed_cells(*rec, i as int) + info_cells(cat.info@, *rec, i as int)
                    + all_sample_cells(cat.format@, *rec, s as nat, i as int),
                outer.len() == 6 + cat.info@.len() + s as int * nfmt as int,
                done.len() == outer.len() + t2,
            decreases nfmt - t2,
        {
            proof {
                lemma_partial_width_bound(
                    cat.info@.len() as int,
                    nsamp as int,
                    nfmt as int,
                    s as int,
                    t2 as int,
                );
            }
            let cell = format_cell_text(&cat.format[t2], rec, s, i);
            w.write_field(cell.as_slice());
            proof {
                lemma_fields_push(done, cell@);
                done = done.push(format_cell(cat.format@[t2 as int], *rec, s as int, i as int));
                assert(done =~= outer + sample_cells(
                    cat.format@.take(t2 + 1),
                    *rec,
                    s as int,
                    i as int,
                ));
            }
            t2 += 1;
        }
        proof {
            assert(sample_cells(cat.format@.take(cat.format@.len() as int), *rec, s as int, i as int)
                =~= sample_cells(cat.format@, *rec, s as int, i as int));
            assert(done =~= fixed_cells(*rec, i as int) + info_cells(cat.info@, *rec, i as int)
                + all_sample_cells(cat.format@, *rec, (s + 1) as nat, i as int));
            assert((s + 1) * nfmt as int == s as int * nfmt as int + nfmt as int)
                by (nonlinear_arith);
        }
        s += 1;
    }
    proof {
        assert(done =~= row_cells(*cat, *rec, i as int));
    }
    w.newline();
    proof {
        assert(w.bytes() =~= start + row_bytes(row_cells(*cat, *rec, i as int)));
    }
}

/// Flattens one record: one data row per alternate allele, in allele
/// order. A record with no alternates emits nothing. When the record would
/// exercise a FORMAT schema error (it has at least one alternate and the
/// catalog has samples), the error is returned before any cell is written
/// and the writer is untouched.
pub fn flatten_record(w: &mut Writer, cat: &Catalog, rec: &Record) -> (r: Result<(), ParseError>)
    requires
        cat.wf(),
        rec.wf(),
        old(w).fields() == 0,
    ensures
        match r {
            Ok(_) => ({
                &&& final(w).bytes() == old(w).bytes() + rows_bytes(*cat, *rec, rec.alt_count())
                &&& final(w).fields() == 0
                &&& (rec.alt_count() > 0 && cat.samples@.len() > 0 ==> first_format_err(
                    cat.format@,
                ) is None)
            }),
            Err(e) => ({
                &&& rec.alt_count() > 0
                &&& cat.samples@.len() > 0
                &&& first_format_err(cat.format@) == Some(e)
                &&& final(w).bytes() == old(w).bytes()
                &&& final(w).fields() == old(w).fields()
            }),
        },
{
    let k = rec.alleles.len() - 1;
    if k > 0 && cat.samples.len() > 0 {
        match check_format_tags(&cat.format) {
            Some(e) => {
                return Err(e);
            },
            None => {},
        }
    }
    let ghost start = w.bytes();
    let mut i: usize = 0;
    while i < k
        invariant
            i <= k,
            k as nat == rec.alt_count(),
            cat.wf(),
            rec.wf(),
            w.bytes() == start + rows_bytes(*cat, *rec, i as nat),
            w.fields() == 0,
        decreases k - i,
    {
        write_record_row(w, cat, rec, i);
        proof {
            assert(w.bytes() =~= start + rows_bytes(*cat, *rec, (i + 1) as nat));
        }
        i += 1;
    }
    Ok(())
}

/// True when a record makes a FORMAT schema error observable: it has at
/// least one alternate allele and the catalog has samples, so FORMAT cells
/// would be emitted.
pub open spec fn rec_trips(cat: Catalog, rec: Record) -> bool {
    rec.alt_count() > 0 && cat.samples@.len() > 0 && first_format_err(cat.format@) is Some
}

/// The data rows of a whole record sequence, in order.
pub open spec fn all_rows_bytes(cat: Catalog, recs: Seq<Record>) -> Seq<u8>
    decreases recs.len(),
{
    if recs.len() == 0 {
        Seq::empty()
    } else {
        all_rows_bytes(cat, recs.drop_last()) + rows_bytes(
            cat,
            recs.last(),
            recs.last().alt_count(),
        )
    }
}

/// Converts a whole record sequence: the two-row header, then every
/// record's data rows in order. Fails with the catalog's first FORMAT
/// schema error as soon as a record would exercise it.
pub fn convert_records(cat: &Catalog, records: &Vec<Record>) -> (r: Result<Vec<u8>, ParseError>)
    requires
        cat.wf(),
        forall|j: int| 0 <= j < records@.len() ==> (#[trigger] records@[j]).wf(),
    ensures
        match r {
            Ok(out) => ({
                &&& out@ == header_bytes(*cat) + all_rows_bytes(*cat, records@)
                &&& forall|j: int|
                    0 <= j < records@.len() ==> !rec_trips(*cat, #[trigger] records@[j])
            }),
            Err(e) => ({
                &&& first_format_err(cat.format@) == Some(e)
                &&& exists|j: int|
                    0 <= j < records@.len() && rec_trips(*cat, #[trigger] records@[j])
            }),
        },
{
    let mut w = Writer::new();
    write_header(&mut w, cat);
    let mut j: usize = 0;
    while j < records.len()
        invariant
            j <= records@.len(),
            cat.wf(),
            forall|l: int| 0 <= l < records@.len() ==> (#[trigger] records@[l]).wf(),
            w.bytes() == header_bytes(*cat) + all_rows_bytes(*cat, records@.take(j as int)),
            w.fields() == 0,
            forall|l: int| 0 <= l < j ==> !rec_trips(*cat, #[trigger] records@[l]),
        decreases records@.len() - j,
    {
        match flatten_record(&mut w, cat, &records[j]) {
            Ok(_) => {},
            Err(e) => {
                proof {
                    assert(rec_trips(*cat, records@[j as int]));
                }
                return Err(e);
            },
        }
        proof {
            assert(records@.take(j + 1).drop_last() =~= records@.take(j as int));
            assert(records@.take(j + 1).last() == records@[j as int]);
            assert(w.bytes() =~= header_bytes(*cat) + all_rows_bytes(*cat, records@.take(j + 1)));
        }
        j += 1;
    }
    proof {
        assert(records@.take(records@.len() as int) =~= records@);
    }
    Ok(w.into_bytes())
}

/// Every data row has exactly the catalog's column count: the 6 fixed
/// columns, one per INFO tag and one per (sample, FORMAT tag) pair.
pub proof fn lemma_row_column_count(cat: Catalog, rec: Record, i: int)
    ensures
        row_cells(cat, rec, i).len() == cat.width(),
{
    lemma_all_sample_cells_len(cat.format@, rec, cat.samples@.len(), i);
}

/// Both header rows have exactly the catalog's column count, the same one
/// every data row has.
pub proof fn lemma_header_column_count(cat: Catalog)
    ensures
        group_row_cells(cat).len() == cat.width(),
        names_row_cells(cat).len() == cat.width(),
{
    lemma_sample_group_len(cat.samples@, cat.format@.len());
    lemma_sample_name_len(cat.samples@, cat.format@);
}

/// A record with no alternate alleles produces no rows at all.
pub proof fn lemma_no_alternates_no_rows(cat: Catalog, rec: Record)
    requires
        rec.alt_count() == 0,
    ensures
        rows_bytes(cat, rec, rec.alt_count()) == Seq::<u8>::empty(),
{
}

/// A fixed-count INFO tag contributes the same cell to every row the
/// record emits, whichever alternate allele the row is for.
pub proof fn lemma_fixed_info_stable(desc: TagDescriptor, rec: Record, decl: TagDecl, i: int, j: int)
    requires
        desc.decl == Some(decl),
        decl.card matches Cardinality::Fixed(_),
    ensures
        info_cell(desc, rec, i) == info_cell(desc, rec, j),
{
}

/// A per-alternate INFO tag contributes, on the row of alternate `i`, that
/// allele's own value: the value at position `i` of the tag's list. In
/// particular, an integer list yields its `i`-th entry rendered.
pub proof fn lemma_per_alt_allele_selects(desc: TagDescriptor, rec: Record, decl: TagDecl, i: int)
    requires
        desc.decl == Some(decl),
        decl.card is PerAltAllele,
        !(decl.ty is Flag),
    ensures
        info_cell(desc, rec, i) == (match info_value_of(rec.info@, desc.id@) {
            None => Seq::<u8>::empty(),
            Some(v) => value_cell(decl.ty, v, i),
        }),
        (match info_value_of(rec.info@, desc.id@) {
            Some(TagValue::Ints(vs)) => decl.ty is Integer && 0 <= i < vs@.len() ==> info_cell(
                desc,
                rec,
                i,
            ) == fmt_int(vs@[i] as int),
            _ => true,
        }),
{
}

/// A per-allele INFO tag (one value per allele, the reference included)
/// contributes, on the row of alternate `i`, the value at position
/// `i + 1`: the reference's value at position 0 never surfaces in a data
/// cell.
pub proof fn lemma_per_allele_skips_reference(
    desc: TagDescriptor,
    rec: Record,
    decl: TagDecl,
    i: int,
)
    requires
        desc.decl == Some(decl),
        decl.card is PerAllele,
        !(decl.ty is Flag),
    ensures
        info_cell(desc, rec, i) == (match info_value_of(rec.info@, desc.id@) {
            None => Seq::<u8>::empty(),
            Some(v) => value_cell(decl.ty, v, i + 1),
        }),
        (match info_value_of(rec.info@, desc.id@) {
            Some(TagValue::Ints(vs)) => decl.ty is Integer && 0 <= i + 1 < vs@.len() ==> info_cell(
                desc,
                rec,
                i,
            ) == fmt_int(vs@[i + 1] as int),
            _ => true,
        }),
{
}

/// A missing sentinel renders as an empty cell, never as a literal missing
/// token: the integer sentinel and the pre-rendered float sentinel both
/// yield empty text.
pub proof fn lemma_missing_renders_empty(ints: Vec<i32>, floats: Vec<Option<Vec<u8>>>, idx: int)
    ensures
        fmt_int(crate::MISSING_INTEGER as int) == Seq::<u8>::empty(),
        0 <= idx < ints@.len() && ints@[idx] == crate::MISSING_INTEGER ==> value_cell(
            TagType::Integer,
            TagValue::Ints(ints),
            idx,
        ) == Seq::<u8>::empty(),
        0 <= idx < floats@.len() && floats@[idx] is None ==> value_cell(
            TagType::Float,
            TagValue::Floats(floats),
            idx,
        ) == Seq::<u8>::empty(),
{
}

/// A tag the header lists but does not define renders as an empty cell on
/// every row, as INFO and as FORMAT alike.
pub proof fn lemma_undefined_tag_empty(desc: TagDescriptor, rec: Record, s: int, i: int)
    requires
        desc.decl is None,
    ensures
        info_cell(desc, rec, i) == Seq::<u8>::empty(),
        format_cell(desc, rec, s, i) == Seq::<u8>::empty(),
{
}

/// A declared non-flag tag that a record carries no value for renders as
/// an empty cell on every row of that record.
pub proof fn lemma_absent_tag_empty(desc: TagDescriptor, rec: Record, decl: TagDecl, s: int, i: int)
    requires
        desc.decl == Some(decl),
        !(decl.ty is Flag),
        info_value_of(rec.info@, desc.id@) is None,
        desc.id@ != gt_id(),
        format_value_of(rec.format@, desc.id@, s) is None,
    ensures
        info_cell(desc, rec, i) == Seq::<u8>::empty(),
        format_cell(desc, rec, s, i) == Seq::<u8>::empty(),
{
}

/// Filter rendering: an unset filter is an empty cell; a sole filter name
/// (the pass label included) stands alone; further names join with a
/// semicolon, keeping declaration order.
pub proof fn lemma_filter_rendering(single: Vec<u8>, fs: Seq<Vec<u8>>)
    ensures
        filters_cell(Seq::<Vec<u8>>::empty()) == Seq::<u8>::empty(),
        filters_cell(seq![single]) == single@,
        fs.len() >= 2 ==> filters_cell(fs) == filters_cell(fs.drop_last()) + seq![59u8]
            + fs.last()@,
{
}

} // verus!
