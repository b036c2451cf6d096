//! The row writer: a buffered, delimiter-aware sink.
//!
//! Fields accumulate into an owned byte buffer; the column delimiter (a
//! horizontal tab) is inserted before every field but the first of a row,
//! and a newline terminates the row and resets the field counter. The
//! caller owns flushing the buffer to its destination; no escaping is
//! performed, so field content must not itself contain the delimiter or the
//! line terminator.

use vstd::prelude::*;

use crate::valuefmt::append_bytes;
use crate::valuefmt::flag_bytes;
use crate::valuefmt::flag_to_text;
use crate::valuefmt::fmt_int;
use crate::valuefmt::int_to_text;
use crate::valuefmt::opt_text_cell;
use crate::valuefmt::opt_to_text;

verus! {

/// The delimiter that precedes a field: a tab unless the field is the first
/// of its row.
pub open spec fn field_sep(fields: nat) -> Seq<u8> {
    if fields > 0 {
        seq![9u8]
    } else {
        Seq::empty()
    }
}

/// A buffered, delimiter-aware row sink.
pub struct Writer {
    buf: Vec<u8>,
    field_count: usize,
}

impl Writer {
    /// The bytes accumulated so far.
    pub closed spec fn bytes(self) -> Seq<u8> {
        self.buf@
    }

    /// The number of fields written on the current row.
    pub closed spec fn fields(self) -> nat {
        self.field_count as nat
    }

    /// A fresh writer: empty buffer, at the start of a row.
    pub fn new() -> (r: Writer)
        ensures
            r.bytes() == Seq::<u8>::empty(),
            r.fields() == 0,
    {
        Writer { buf: Vec::new(), field_count: 0 }
    }

    /// Appends one field: the column delimiter first unless the field is
    /// the first of its row, then the field bytes.
    pub fn write_field(&mut self, value: &[u8])
        requires
            old(self).fields() < usize::MAX as nat,
        ensures
            final(self).bytes() == old(self).bytes() + field_sep(old(self).fields()) + value@,
            final(self).fields() == old(self).fields() + 1,
    {
        if self.field_count > 0 {
            self.buf.push(9);
            assert(self.buf@ =~= old(self).buf@ + field_sep(old(self).fields()));
        } else {
            assert(self.buf@ =~= old(self).buf@ + field_sep(old(self).fields()));
        }
        append_bytes(&mut self.buf, value);
        self.field_count = self.field_count + 1;
    }

    /// Appends an integer field: empty for the missing sentinel, decimal
    /// text otherwise.
    pub fn write_integer(&mut self, value: i32)
        requires
            old(self).fields() < usize::MAX as nat,
        ensures
            final(self).bytes() == old(self).bytes() + field_sep(old(self).fields()) + fmt_int(
                value as int,
            ),
            final(self).fields() == old(self).fields() + 1,
    {
        let text = int_to_text(value);
        self.write_field(text.as_slice());
    }

    /// Appends a float field from its pre-rendered text: empty for the
    /// missing sentinel, the text otherwise.
    pub fn write_float(&mut self, value: &Option<Vec<u8>>)
        requires
            old(self).fields() < usize::MAX as nat,
        ensures
            final(self).bytes() == old(self).bytes() + field_sep(old(self).fields())
                + opt_text_cell(*value),
            final(self).fields() == old(self).fields() + 1,
    {
        let text = opt_to_text(value);
        self.write_field(text.as_slice());
    }

    /// Appends a flag field: the literal `true` or `false`.
    pub fn write_flag(&mut self, value: bool)
        requires
            old(self).fields() < usize::MAX as nat,
        ensures
            final(self).bytes() == old(self).bytes() + field_sep(old(self).fields()) + flag_bytes(
                value,
            ),
            final(self).fields() == old(self).fields() + 1,
    {
        let text = flag_to_text(value);
        self.write_field(text.as_slice());
    }

    /// Terminates the current row and resets the field counter.
    pub fn newline(&mut self)
        ensures
            final(self).bytes() == old(self).bytes() + seq![10u8],
            final(self).fields() == 0,
    {
        self.buf.push(10);
        self.field_count = 0;
    }

    /// Hands the accumulated bytes out and leaves the buffer empty; the
    /// field counter is untouched, so a row may continue across a drain.
    pub fn take_bytes(&mut self) -> (r: Vec<u8>)
        ensures
            r@ == old(self).bytes(),
            final(self).bytes() == Seq::<u8>::empty(),
            final(self).fields() == old(self).fields(),
    {
        let mut out: Vec<u8> = Vec::new();
        core::mem::swap(&mut out, &mut self.buf);
        out
    }

    /// Consumes the writer, yielding the accumulated bytes.
    pub fn into_bytes(self) -> (r: Vec<u8>)
        ensures
            r@ == self.bytes(),
    {
        self.buf
    }
}

} // verus!
