//! Public parameters as bytes.
//!
//! A list is written as its length and its items, and an ordered table as the
//! list of its entries. Every item has a fixed width.

use crate::data_structures::UniversalParams;
use crate::group::{g1_encodes, g2_encodes, G1, G2};
use crate::pairing::prepare;
use crate::tables::{entries, lists_table, table_of};
#[allow(unused_imports)]
use vstd::bytes::lemma_auto_spec_u64_to_from_le_bytes;
use vstd::bytes::{
    spec_u64_from_le_bytes, spec_u64_to_le_bytes, u64_from_le_bytes, u64_to_le_bytes,
};
use vstd::prelude::*;
use vstd::slice::slice_subrange;

verus! {

/// A kind of items whose encodings all have the same width.
pub trait FixedWidth: Sized {
    /// The width of an encoding.
    spec fn spec_width() -> nat;

    /// The encoding.
    spec fn bytes(self) -> Seq<u8>;

    /// Whether this is a value that can occur.
    spec fn is_valid(self) -> bool;

    /// Encodings have the width of their kind, and tell items apart.
    proof fn lemma_encoding(a: Self, b: Self)
        ensures
            Self::spec_width() > 0,
            a.bytes().len() == Self::spec_width(),
            a.bytes() == b.bytes() ==> a == b,
    ;

    /// The width of an encoding.
    fn width() -> (res: usize)
        requires
            Self::spec_width() <= usize::MAX,
        ensures
            res == Self::spec_width(),
    ;

    /// Appends the encoding.
    fn write(&self, out: &mut Vec<u8>)
        ensures
            final(out)@ == old(out)@ + self.bytes(),
            self.is_valid(),
    ;

    /// The item with a given encoding, if there is one.
    fn read(record: &[u8]) -> (res: Option<Self>)
        requires
            record@.len() == Self::spec_width(),
        ensures
            match res {
                Some(item) => item.bytes() == record@,
                None => forall|item: Self| #[trigger] item.bytes() == record@ ==> !item.is_valid(),
            },
    ;
}

impl FixedWidth for usize {
    open spec fn spec_width() -> nat {
        8
    }

    open spec fn bytes(self) -> Seq<u8> {
        spec_u64_to_le_bytes(self as u64)
    }

    open spec fn is_valid(self) -> bool {
        true
    }

    proof fn lemma_encoding(a: usize, b: usize) {
        lemma_auto_spec_u64_to_from_le_bytes();
    }

    fn width() -> (res: usize) {
        8
    }

    fn write(&self, out: &mut Vec<u8>) {
        let mut number = u64_to_le_bytes(*self as u64);
        out.append(&mut number);
    }

    fn read(record: &[u8]) -> (res: Option<usize>) {
        proof {
            lemma_auto_spec_u64_to_from_le_bytes();
        }
        let number: u64 = u64_from_le_bytes(record);
        if number <= usize::MAX as u64 {
            Some(number as usize)
        } else {
            None
        }
    }
}

impl FixedWidth for G1 {
    open spec fn spec_width() -> nat {
        97
    }

    open spec fn bytes(self) -> Seq<u8> {
        self.encoding()
    }

    open spec fn is_valid(self) -> bool {
        self.in_group()
    }

    proof fn lemma_encoding(a: G1, b: G1) {
        G1::lemma_encoding_is_faithful(a, b);
    }

    fn width() -> (res: usize) {
        97
    }

    fn write(&self, out: &mut Vec<u8>) {
        proof {
            use_type_invariant(self);
        }
        let bytes = self.to_bytes_le();
        append_slice(out, &bytes);
    }

    fn read(record: &[u8]) -> (res: Option<G1>) {
        let mut bytes = [0u8; 97];
        let mut i: usize = 0;
        while i < 97
            invariant
                i <= 97,
                record@.len() == 97,
                forall|j: int| 0 <= j < i ==> bytes@[j] == record@[j],
            decreases 97 - i,
        {
            bytes[i] = record[i];
            i = i + 1;
        }
        proof {
            assert(bytes@ =~= record@);
            assert forall|item: G1| #[trigger] item.bytes() == record@ && item.is_valid() implies
                g1_encodes(bytes@, item@) by {}
        }
        G1::from_bytes_le(bytes)
    }
}

impl FixedWidth for G2 {
    open spec fn spec_width() -> nat {
        193
    }

    open spec fn bytes(self) -> Seq<u8> {
        self.encoding()
    }

    open spec fn is_valid(self) -> bool {
        self.in_group()
    }

    proof fn lemma_encoding(a: G2, b: G2) {
        G2::lemma_encoding_is_faithful(a, b);
    }

    fn width() -> (res: usize) {
        193
    }

    fn write(&self, out: &mut Vec<u8>) {
        proof {
            use_type_invariant(self);
        }
        let bytes = self.to_bytes_le();
        append_slice(out, &bytes);
    }

    fn read(record: &[u8]) -> (res: Option<G2>) {
        let mut bytes = [0u8; 193];
        let mut i: usize = 0;
        while i < 193
            invariant
                i <= 193,
                record@.len() == 193,
                forall|j: int| 0 <= j < i ==> bytes@[j] == record@[j],
            decreases 193 - i,
        {
            bytes[i] = record[i];
            i = i + 1;
        }
        proof {
            assert(bytes@ =~= record@);
            assert forall|item: G2| #[trigger] item.bytes() == record@ && item.is_valid() implies
                g2_encodes(bytes@, item@) by {}
        }
        G2::from_bytes_le(bytes)
    }
}

impl<T: FixedWidth> FixedWidth for (usize, T) {
    open spec fn spec_width() -> nat {
        8 + T::spec_width()
    }

    open spec fn bytes(self) -> Seq<u8> {
        self.0.bytes() + self.1.bytes()
    }

    open spec fn is_valid(self) -> bool {
        self.1.is_valid()
    }

    proof fn lemma_encoding(a: (usize, T), b: (usize, T)) {
        usize::lemma_encoding(a.0, b.0);
        T::lemma_encoding(a.1, b.1);
        usize::lemma_encoding(b.0, a.0);
        T::lemma_encoding(b.1, a.1);
        if a.bytes() == b.bytes() {
            lemma_split(a.0.bytes(), a.1.bytes(), b.0.bytes(), b.1.bytes());
        }
    }

    fn width() -> (res: usize) {
        8 + T::width()
    }

    fn write(&self, out: &mut Vec<u8>) {
        self.0.write(out);
        self.1.write(out);
        proof {
            lemma_concat_associative(old(out)@, self.0.bytes(), self.1.bytes());
        }
    }

    fn read(record: &[u8]) -> (res: Option<(usize, T)>) {
        let (first, second) = (
            slice_subrange(record, 0, 8),
            slice_subrange(record, 8, record.len()),
        );
        proof {
            assert(record@ =~= first@ + second@);
            assert forall|item: (usize, T)| #[trigger] item.bytes() == record@ implies
                item.0.bytes() == first@ && item.1.bytes() == second@ by {
                usize::lemma_encoding(item.0, item.0);
                lemma_split(item.0.bytes(), item.1.bytes(), first@, second@);
            }
        }
        match (usize::read(first), T::read(second)) {
            (Some(key), Some(value)) => Some((key, value)),
            _ => None,
        }
    }
}

/// The encodings of items, one after the other.
pub open spec fn joined<T: FixedWidth>(items: Seq<T>) -> Seq<u8>
    decreases items.len(),
{
    if items.len() == 0 {
        Seq::empty()
    } else {
        joined(items.drop_last()) + items.last().bytes()
    }
}

/// The encoding of a list.
pub open spec fn list_bytes<T: FixedWidth>(items: Seq<T>) -> Seq<u8> {
    spec_u64_to_le_bytes(items.len() as u64) + joined(items)
}

/// Whether every item of a list is one that can occur.
pub open spec fn all_valid<T: FixedWidth>(items: Seq<T>) -> bool {
    forall|i: int| 0 <= i < items.len() ==> (#[trigger] items[i]).is_valid()
}

/// Appends the encoding of a list.
fn write_list<T: FixedWidth>(items: &Vec<T>, out: &mut Vec<u8>)
    ensures
        final(out)@ == old(out)@ + list_bytes(items@),
        all_valid(items@),
{
    items.len().write(out);
    let ghost start = out@;
    let mut i: usize = 0;
    assert(out@ =~= start + joined(items@.take(0)));
    while i < items.len()
        invariant
            i <= items@.len(),
            out@ == start + joined(items@.take(i as int)),
            forall|j: int| 0 <= j < i ==> (#[trigger] items@[j]).is_valid(),
        decreases items@.len() - i,
    {
        items[i].write(out);
        proof {
            let longer = items@.take(i + 1);
            assert(longer.drop_last() =~= items@.take(i as int));
            lemma_concat_associative(start, joined(items@.take(i as int)), items@[i as int].bytes());
        }
        i = i + 1;
    }
    proof {
        assert(items@.take(items@.len() as int) =~= items@);
        lemma_concat_associative(
            old(out)@,
            spec_u64_to_le_bytes(items@.len() as u64),
            joined(items@),
        );
    }
}

/// The list whose encoding starts at a position, and the position where it
/// ends, if there is one.
fn read_list<T: FixedWidth>(bytes: &[u8], start: usize) -> (res: Option<(Vec<T>, usize)>)
    requires
        start <= bytes@.len(),
        T::spec_width() <= usize::MAX,
    ensures
        match res {
            Some((items, end)) => {
                &&& start <= end <= bytes@.len()
                &&& bytes@.skip(start as int) == list_bytes(items@) + bytes@.skip(end as int)
            },
            None => forall|items: Seq<T>, rest: Seq<u8>|
                bytes@.skip(start as int) == #[trigger] (list_bytes(items) + rest) ==> !all_valid(
                    items,
                ),
        },
{
    let ghost tail = bytes@.skip(start as int);
    let width: usize = T::width();
    let len: usize = bytes.len();
    proof {
        let item: T = arbitrary();
        T::lemma_encoding(item, item);
        lemma_auto_spec_u64_to_from_le_bytes();
    }
    if len - start < 8 {
        proof {
            assert forall|items: Seq<T>, rest: Seq<u8>| tail == #[trigger] (list_bytes(items)
                + rest) implies !all_valid(items) by {
                assert(tail.len() >= 8);
            }
        }
        return None;
    }
    let head = slice_subrange(bytes, start, start + 8);
    let count: u64 = u64_from_le_bytes(head);
    let room: u64 = ((len - start - 8) / width) as u64;
    proof {
        assert(head@ =~= tail.take(8));
        assert forall|items: Seq<T>, rest: Seq<u8>| tail == #[trigger] (list_bytes(items)
            + rest) implies items.len() == count && tail.skip(8) == joined(items) + rest
            && items.len() <= room by {
            lemma_list_starts(items, rest, tail, room as int, (len - start - 8) as int);
        }
    }
    if count > room {
        return None;
    }
    let mut items: Vec<T> = Vec::new();
    let mut end: usize = start + 8;
    let mut i: u64 = 0;
    proof {
        assert(tail.skip(8) =~= bytes@.skip(end as int));
        assert(joined(items@) + bytes@.skip(end as int) =~= bytes@.skip(end as int));
    }
    while i < count
        invariant
            i <= count <= room,
            room == (len - start - 8) / (width as int),
            width == T::spec_width(),
            width > 0,
            len == bytes@.len(),
            start + 8 <= len,
            tail == bytes@.skip(start as int),
            items@.len() == i,
            end == start + 8 + i * width,
            end <= len,
            tail.skip(8) == joined(items@) + bytes@.skip(end as int),
            forall|all: Seq<T>, rest: Seq<u8>|
                tail == #[trigger] (list_bytes(all) + rest) ==> all.len() == count && tail.skip(8)
                    == joined(all) + rest,
        decreases count - i,
    {
        proof {
            lemma_room(i as int, count as int, room as int, width as int, (len - start - 8) as int);
        }
        let record = slice_subrange(bytes, end, end + width);
        let ghost before = items@;
        let ghost after = bytes@.skip(end + width);
        proof {
            assert(bytes@.skip(end as int) =~= record@ + after);
        }
        match T::read(record) {
            Some(item) => {
                items.push(item);
                proof {
                    assert(items@.drop_last() =~= before);
                    lemma_concat_associative(joined(before), record@, after);
                }
            },
            None => {
                proof {
                    assert forall|all: Seq<T>, rest: Seq<u8>| tail == #[trigger] (list_bytes(all)
                        + rest) implies !all_valid(all) by {
                        lemma_joined_record(all, rest, before, record@, after);
                        assert(all[i as int].bytes() == record@);
                    }
                }
                return None;
            },
        }
        end = end + width;
        i = i + 1;
        assert(end == start + 8 + i * width) by {
            assert((i - 1) * width + width == i * width) by (nonlinear_arith);
        }
    }
    proof {
        let number = spec_u64_to_le_bytes(count);
        assert(tail =~= number + tail.skip(8));
        lemma_concat_associative(number, joined(items@), bytes@.skip(end as int));
    }
    Some((items, end))
}

/// Sequences that start with parts of the same length have the same parts.
proof fn lemma_split(a1: Seq<u8>, a2: Seq<u8>, b1: Seq<u8>, b2: Seq<u8>)
    requires
        a1 + a2 == b1 + b2,
        a1.len() == b1.len(),
    ensures
        a1 == b1,
        a2 == b2,
{
    let (a, b) = (a1 + a2, b1 + b2);
    assert(a1 =~= a.take(a1.len() as int));
    assert(b1 =~= b.take(b1.len() as int));
    assert(a2 =~= a.skip(a1.len() as int));
    assert(b2 =~= b.skip(b1.len() as int));
}

proof fn lemma_concat_associative(a: Seq<u8>, b: Seq<u8>, c: Seq<u8>)
    ensures
        a + b + c == a + (b + c),
{
    assert(a + b + c =~= a + (b + c));
}

proof fn lemma_joined_len<T: FixedWidth>(items: Seq<T>)
    ensures
        joined(items).len() == items.len() * T::spec_width(),
    decreases items.len(),
{
    if items.len() > 0 {
        lemma_joined_len(items.drop_last());
        T::lemma_encoding(items.last(), items.last());
        assert((items.len() - 1) * T::spec_width() + T::spec_width() == items.len()
            * T::spec_width()) by (nonlinear_arith);
    }
}

/// What the start of the encoding of a list says of it.
proof fn lemma_list_starts<T: FixedWidth>(
    items: Seq<T>,
    rest: Seq<u8>,
    tail: Seq<u8>,
    room: int,
    available: int,
)
    requires
        tail == list_bytes(items) + rest,
        tail.len() == available + 8,
        available <= u64::MAX,
        T::spec_width() > 0,
        room == available / (T::spec_width() as int),
    ensures
        items.len() == spec_u64_from_le_bytes(tail.take(8)),
        tail.skip(8) == joined(items) + rest,
        items.len() <= room,
{
    lemma_auto_spec_u64_to_from_le_bytes();
    let number = spec_u64_to_le_bytes(items.len() as u64);
    lemma_concat_associative(number, joined(items), rest);
    assert(tail.take(8) =~= number);
    assert(tail.skip(8) =~= joined(items) + rest);
    lemma_joined_len(items);
    let (n, width) = (items.len() as int, T::spec_width() as int);
    assert(n <= room && n <= available) by (nonlinear_arith)
        requires
            n * width <= available,
            n >= 0,
            width > 0,
            room == available / width,
    ;
}

proof fn lemma_room(i: int, count: int, room: int, width: int, available: int)
    requires
        0 <= i < count <= room,
        width > 0,
        room == available / width,
    ensures
        i * width + width <= available,
{
    assert(i * width + width <= available) by (nonlinear_arith)
        requires
            0 <= i < count <= room,
            width > 0,
            room == available / width,
    ;
}

/// Lists whose joined encodings agree as far as one of them goes agree so far.
proof fn lemma_joined_prefix<T: FixedWidth>(a: Seq<T>, x: Seq<u8>, b: Seq<T>, y: Seq<u8>)
    requires
        joined(a) + x == joined(b) + y,
        a.len() == b.len(),
    ensures
        a == b,
        x == y,
    decreases a.len(),
{
    if a.len() == 0 {
        assert(a =~= b);
        assert(joined(a) + x =~= x);
        assert(joined(b) + y =~= y);
    } else {
        let (a1, b1) = (a.drop_last(), b.drop_last());
        lemma_concat_associative(joined(a1), a.last().bytes(), x);
        lemma_concat_associative(joined(b1), b.last().bytes(), y);
        lemma_joined_prefix(a1, a.last().bytes() + x, b1, b.last().bytes() + y);
        T::lemma_encoding(a.last(), b.last());
        T::lemma_encoding(b.last(), a.last());
        lemma_split(a.last().bytes(), x, b.last().bytes(), y);
        assert(a =~= a1.push(a.last()));
        assert(b =~= b1.push(b.last()));
    }
}

/// The item of a list that follows the ones already read is encoded by the
/// record that follows them.
proof fn lemma_joined_record<T: FixedWidth>(
    all: Seq<T>,
    rest: Seq<u8>,
    before: Seq<T>,
    record: Seq<u8>,
    after: Seq<u8>,
)
    requires
        joined(all) + rest == joined(before) + (record + after),
        before.len() < all.len(),
        record.len() == T::spec_width(),
    ensures
        all[before.len() as int].bytes() == record,
    decreases all.len(),
{
    let n = all.len() - 1;
    let shorter = all.drop_last();
    let last = all.last().bytes();
    lemma_concat_associative(joined(shorter), last, rest);
    if before.len() == n {
        lemma_joined_prefix(shorter, last + rest, before, record + after);
        T::lemma_encoding(all.last(), all.last());
        lemma_split(last, rest, record, after);
    } else {
        lemma_joined_record(shorter, last + rest, before, record, after);
    }
}

/// Encodings of lists tell them apart, whatever follows.
proof fn lemma_list_prefix<T: FixedWidth>(a: Seq<T>, x: Seq<u8>, b: Seq<T>, y: Seq<u8>)
    requires
        list_bytes(a) + x == list_bytes(b) + y,
        a.len() <= u64::MAX,
        b.len() <= u64::MAX,
    ensures
        a == b,
        x == y,
{
    lemma_auto_spec_u64_to_from_le_bytes();
    let (na, nb) = (spec_u64_to_le_bytes(a.len() as u64), spec_u64_to_le_bytes(b.len() as u64));
    lemma_concat_associative(na, joined(a), x);
    lemma_concat_associative(nb, joined(b), y);
    lemma_split(na, joined(a) + x, nb, joined(b) + y);
    lemma_joined_prefix(a, x, b, y);
}

/// Appends bytes.
fn append_slice(out: &mut Vec<u8>, bytes: &[u8])
    ensures
        final(out)@ == old(out)@ + bytes@,
{
    let mut i: usize = 0;
    while i < bytes.len()
        invariant
            i <= bytes@.len(),
            out@ == old(out)@ + bytes@.take(i as int),
        decreases bytes@.len() - i,
    {
        out.push(bytes[i]);
        proof {
            assert(bytes@.take(i + 1) =~= bytes@.take(i as int).push(bytes@[i as int]));
        }
        i = i + 1;
    }
    assert(bytes@.take(bytes@.len() as int) =~= bytes@);
}

/// What the encoding of parameters holds, in its order.
pub ghost struct Layout {
    /// The powers for polynomials.
    pub powers_of_g: Seq<G1>,
    /// The powers for blinding polynomials, with their exponents.
    pub powers_of_gamma_g: Seq<(usize, G1)>,
    /// The base of the verifier's powers.
    pub h: G2,
    /// The multiple of that base by the secret point.
    pub beta_h: G2,
    /// The supported degree bounds.
    pub supported_degree_bounds: Seq<usize>,
    /// The shifting powers, with their bounds.
    pub inverse_powers_of_g: Seq<(usize, G1)>,
    /// The powers that undo the shifts, with their bounds.
    pub inverse_neg_powers_of_h: Seq<(usize, G2)>,
}

impl Layout {
    /// The encoding from the bounds on.
    pub open spec fn bounds_bytes(self) -> Seq<u8> {
        list_bytes(self.supported_degree_bounds) + (list_bytes(self.inverse_powers_of_g) + (
        list_bytes(self.inverse_neg_powers_of_h) + Seq::empty()))
    }

    /// The encoding from the elements of the second group on.
    pub open spec fn h_bytes(self) -> Seq<u8> {
        self.h.encoding() + (self.beta_h.encoding() + self.bounds_bytes())
    }

    /// The encoding.
    pub open spec fn bytes(self) -> Seq<u8> {
        list_bytes(self.powers_of_g) + (list_bytes(self.powers_of_gamma_g) + self.h_bytes())
    }

    /// Whether the lengths fit the machine.
    pub open spec fn fits(self) -> bool {
        &&& self.powers_of_g.len() <= usize::MAX
        &&& self.powers_of_gamma_g.len() <= usize::MAX
        &&& self.supported_degree_bounds.len() <= usize::MAX
        &&& self.inverse_powers_of_g.len() <= usize::MAX
        &&& self.inverse_neg_powers_of_h.len() <= usize::MAX
    }

    /// Whether every element is one that can occur.
    pub open spec fn is_valid(self) -> bool {
        &&& all_valid(self.powers_of_g)
        &&& all_valid(self.powers_of_gamma_g)
        &&& self.h.in_group()
        &&& self.beta_h.in_group()
        &&& all_valid(self.inverse_powers_of_g)
        &&& all_valid(self.inverse_neg_powers_of_h)
    }
}

impl UniversalParams {
    /// Whether a layout holds these parameters.
    pub open spec fn laid_out_as(self, layout: Layout) -> bool {
        &&& layout.fits()
        &&& layout.powers_of_g == self.powers_of_g@
        &&& lists_table(layout.powers_of_gamma_g, self.powers_of_gamma_g@)
        &&& layout.h == self.h
        &&& layout.beta_h == self.beta_h
        &&& layout.supported_degree_bounds == self.supported_degree_bounds@
        &&& lists_table(layout.inverse_powers_of_g, self.inverse_powers_of_g@)
        &&& lists_table(layout.inverse_neg_powers_of_h, self.inverse_neg_powers_of_h@)
    }

    /// Whether bytes are the encoding of these parameters.
    pub open spec fn encoded_as(self, bytes: Seq<u8>) -> bool {
        exists|layout: Layout|
            self.laid_out_as(layout) && #[trigger] layout.bytes() == bytes
    }

    /// The encoding. What is prepared for pairings is left out, since it
    /// follows from the rest.
    pub fn to_bytes_le(&self) -> (res: Vec<u8>)
        ensures
            self.encoded_as(res@),
            self.is_valid(),
    {
        let powers_of_gamma_g = entries(&self.powers_of_gamma_g);
        let inverse_powers_of_g = entries(&self.inverse_powers_of_g);
        let inverse_neg_powers_of_h = entries(&self.inverse_neg_powers_of_h);
        let ghost layout = Layout {
            powers_of_g: self.powers_of_g@,
            powers_of_gamma_g: powers_of_gamma_g@,
            h: self.h,
            beta_h: self.beta_h,
            supported_degree_bounds: self.supported_degree_bounds@,
            inverse_powers_of_g: inverse_powers_of_g@,
            inverse_neg_powers_of_h: inverse_neg_powers_of_h@,
        };
        let mut out: Vec<u8> = Vec::new();
        write_list(&self.powers_of_g, &mut out);
        write_list(&powers_of_gamma_g, &mut out);
        self.h.write(&mut out);
        self.beta_h.write(&mut out);
        write_list(&self.supported_degree_bounds, &mut out);
        write_list(&inverse_powers_of_g, &mut out);
        write_list(&inverse_neg_powers_of_h, &mut out);
        proof {
            assert(self.powers_of_g.len() <= usize::MAX);
            assert(powers_of_gamma_g.len() <= usize::MAX);
            assert(self.supported_degree_bounds.len() <= usize::MAX);
            assert(inverse_powers_of_g.len() <= usize::MAX);
            assert(inverse_neg_powers_of_h.len() <= usize::MAX);
            assert(out@ =~= layout.bytes());
            assert(self.laid_out_as(layout));
            lemma_params_valid(*self, layout);
        }
        out
    }

    /// Whether every element is one that can occur.
    pub open spec fn is_valid(self) -> bool {
        &&& all_valid(self.powers_of_g@)
        &&& forall|k: usize| #[trigger]
            self.powers_of_gamma_g@.contains_key(k) ==> self.powers_of_gamma_g@[k].in_group()
        &&& self.h.in_group()
        &&& self.beta_h.in_group()
        &&& forall|k: usize| #[trigger]
            self.inverse_powers_of_g@.contains_key(k) ==> self.inverse_powers_of_g@[k].in_group()
        &&& forall|k: usize| #[trigger]
            self.inverse_neg_powers_of_h@.contains_key(k)
                ==> self.inverse_neg_powers_of_h@[k].in_group()
    }

    /// The parameters with a given encoding, if there are any.
    pub fn read_le(bytes: &[u8]) -> (res: Option<UniversalParams>)
        ensures
            match res {
                Some(pp) => {
                    &&& pp.encoded_as(bytes@)
                    &&& pp.prepared_h@ == pp.h@
                    &&& pp.prepared_beta_h@ == pp.beta_h@
                },
                None => forall|pp: UniversalParams|
                    #![trigger pp.is_valid()]
                    pp.encoded_as(bytes@) ==> !pp.is_valid(),
            },
    {
        let parts = match read_parts(bytes) {
            None => {
                proof {
                    assert forall|pp: UniversalParams| #[trigger]
                        pp.encoded_as(bytes@) implies !pp.is_valid() by {
                        let layout = choose|layout: Layout|
                            pp.laid_out_as(layout) && #[trigger] layout.bytes() == bytes@;
                        if pp.is_valid() {
                            lemma_layout_valid(pp, layout);
                        }
                    }
                }
                return None;
            },
            Some(parts) => parts,
        };
        let (gammas, shifts, shifts_h) = match (
            table_of(&parts.powers_of_gamma_g),
            table_of(&parts.inverse_powers_of_g),
            table_of(&parts.inverse_neg_powers_of_h),
        ) {
            (Some(gammas), Some(shifts), Some(shifts_h)) => (gammas, shifts, shifts_h),
            _ => {
                proof {
                    assert forall|pp: UniversalParams| #[trigger]
                        pp.encoded_as(bytes@) implies !pp.is_valid() by {
                        let layout = choose|layout: Layout|
                            pp.laid_out_as(layout) && #[trigger] layout.bytes() == bytes@;
                        lemma_layout_unique(layout, parts.layout());
                    }
                }
                return None;
            },
        };
        let prepared_h = prepare(&parts.h);
        let prepared_beta_h = prepare(&parts.beta_h);
        let ghost layout = parts.layout();
        let pp = UniversalParams {
            powers_of_g: parts.powers_of_g,
            powers_of_gamma_g: gammas,
            h: parts.h,
            beta_h: parts.beta_h,
            supported_degree_bounds: parts.supported_degree_bounds,
            inverse_powers_of_g: shifts,
            inverse_neg_powers_of_h: shifts_h,
            prepared_h,
            prepared_beta_h,
        };
        assert(pp.laid_out_as(layout));
        Some(pp)
    }
}

/// What was read from the encoding of parameters.
struct Parts {
    powers_of_g: Vec<G1>,
    powers_of_gamma_g: Vec<(usize, G1)>,
    h: G2,
    beta_h: G2,
    supported_degree_bounds: Vec<usize>,
    inverse_powers_of_g: Vec<(usize, G1)>,
    inverse_neg_powers_of_h: Vec<(usize, G2)>,
}

impl Parts {
    /// The layout of what was read.
    spec fn layout(self) -> Layout {
        Layout {
            powers_of_g: self.powers_of_g@,
            powers_of_gamma_g: self.powers_of_gamma_g@,
            h: self.h,
            beta_h: self.beta_h,
            supported_degree_bounds: self.supported_degree_bounds@,
            inverse_powers_of_g: self.inverse_powers_of_g@,
            inverse_neg_powers_of_h: self.inverse_neg_powers_of_h@,
        }
    }
}

/// The item whose encoding starts at a position, and the position where it
/// ends, if there is one.
fn read_item<T: FixedWidth>(bytes: &[u8], start: usize) -> (res: Option<(T, usize)>)
    requires
        start <= bytes@.len(),
        T::spec_width() <= usize::MAX,
    ensures
        match res {
            Some((item, end)) => {
                &&& start <= end <= bytes@.len()
                &&& bytes@.skip(start as int) == item.bytes() + bytes@.skip(end as int)
            },
            None => forall|item: T, rest: Seq<u8>|
                bytes@.skip(start as int) == #[trigger] (item.bytes() + rest) ==> !item.is_valid(),
        },
{
    let width: usize = T::width();
    let len: usize = bytes.len();
    let ghost tail = bytes@.skip(start as int);
    if len - start < width {
        proof {
            assert forall|item: T, rest: Seq<u8>| tail == #[trigger] (item.bytes()
                + rest) implies !item.is_valid() by {
                T::lemma_encoding(item, item);
                assert(tail.len() >= width);
            }
        }
        return None;
    }
    let record = slice_subrange(bytes, start, start + width);
    proof {
        assert(tail =~= record@ + bytes@.skip(start + width));
        assert forall|item: T, rest: Seq<u8>| tail == #[trigger] (item.bytes()
            + rest) implies item.bytes() == record@ by {
            T::lemma_encoding(item, item);
            lemma_split(item.bytes(), rest, record@, bytes@.skip(start + width));
        }
    }
    match T::read(record) {
        Some(item) => Some((item, start + width)),
        None => None,
    }
}

/// Reads the parts of the encoding of parameters.
fn read_parts(bytes: &[u8]) -> (res: Option<Parts>)
    ensures
        match res {
            Some(parts) => parts.layout().fits() && parts.layout().bytes() == bytes@,
            None => forall|layout: Layout| #[trigger]
                layout.bytes() == bytes@ && layout.fits() ==> !layout.is_valid(),
        },
{
    let ghost all = bytes@;
    assert(all.skip(0) =~= all);
    let (powers_of_g, end1) = match read_list::<G1>(bytes, 0) {
        None => {
            return None;
        },
        Some(list) => list,
    };
    assert(powers_of_g.len() <= usize::MAX);
    assert forall|l: Layout| #[trigger] l.bytes() == all && l.fits() implies l.powers_of_g
        == powers_of_g@ && list_bytes(l.powers_of_gamma_g) + l.h_bytes() == all.skip(
        end1 as int,
    ) by {
        lemma_list_prefix(
            l.powers_of_g,
            list_bytes(l.powers_of_gamma_g) + l.h_bytes(),
            powers_of_g@,
            all.skip(end1 as int),
        );
    }
    let (powers_of_gamma_g, end2) = match read_list::<(usize, G1)>(bytes, end1) {
        None => {
            return None;
        },
        Some(list) => list,
    };
    assert(powers_of_gamma_g.len() <= usize::MAX);
    assert forall|l: Layout| #[trigger] l.bytes() == all && l.fits() implies l.powers_of_gamma_g
        == powers_of_gamma_g@ && l.h_bytes() == all.skip(end2 as int) by {
        lemma_list_prefix(
            l.powers_of_gamma_g,
            l.h_bytes(),
            powers_of_gamma_g@,
            all.skip(end2 as int),
        );
    }
    let (h, end3) = match read_item::<G2>(bytes, end2) {
        None => {
            assert forall|l: Layout| #[trigger]
                l.bytes() == all && l.fits() implies !l.is_valid() by {
                assert(all.skip(end2 as int) == l.h.bytes() + (l.beta_h.encoding()
                    + l.bounds_bytes()));
            }
            return None;
        },
        Some(item) => item,
    };
    assert forall|l: Layout| #[trigger] l.bytes() == all && l.fits() implies l.h == h
        && l.beta_h.encoding() + l.bounds_bytes() == all.skip(end3 as int) by {
        lemma_item_prefix(
            l.h,
            l.beta_h.encoding() + l.bounds_bytes(),
            h,
            all.skip(end3 as int),
        );
    }
    let (beta_h, end4) = match read_item::<G2>(bytes, end3) {
        None => {
            assert forall|l: Layout| #[trigger]
                l.bytes() == all && l.fits() implies !l.is_valid() by {
                assert(all.skip(end3 as int) == l.beta_h.bytes() + l.bounds_bytes());
            }
            return None;
        },
        Some(item) => item,
    };
    assert forall|l: Layout| #[trigger] l.bytes() == all && l.fits() implies l.beta_h == beta_h
        && l.bounds_bytes() == all.skip(end4 as int) by {
        lemma_item_prefix(l.beta_h, l.bounds_bytes(), beta_h, all.skip(end4 as int));
    }
    let (supported_degree_bounds, end5) = match read_list::<usize>(bytes, end4) {
        None => {
            return None;
        },
        Some(list) => list,
    };
    assert(supported_degree_bounds.len() <= usize::MAX);
    assert forall|l: Layout| #[trigger] l.bytes() == all && l.fits() implies list_bytes(
        l.inverse_powers_of_g,
    ) + (list_bytes(l.inverse_neg_powers_of_h) + Seq::empty()) == all.skip(end5 as int) by {
        lemma_list_prefix(
            l.supported_degree_bounds,
            list_bytes(l.inverse_powers_of_g) + (list_bytes(l.inverse_neg_powers_of_h)
                + Seq::empty()),
            supported_degree_bounds@,
            all.skip(end5 as int),
        );
    }
    let (inverse_powers_of_g, end6) = match read_list::<(usize, G1)>(bytes, end5) {
        None => {
            return None;
        },
        Some(list) => list,
    };
    assert(inverse_powers_of_g.len() <= usize::MAX);
    assert forall|l: Layout| #[trigger] l.bytes() == all && l.fits() implies list_bytes(
        l.inverse_neg_powers_of_h,
    ) + Seq::empty() == all.skip(end6 as int) by {
        lemma_list_prefix(
            l.inverse_powers_of_g,
            list_bytes(l.inverse_neg_powers_of_h) + Seq::empty(),
            inverse_powers_of_g@,
            all.skip(end6 as int),
        );
    }
    let (inverse_neg_powers_of_h, end7) = match read_list::<(usize, G2)>(bytes, end6) {
        None => {
            return None;
        },
        Some(list) => list,
    };
    assert(inverse_neg_powers_of_h.len() <= usize::MAX);
    assert forall|l: Layout| #[trigger] l.bytes() == all && l.fits() implies all.skip(
        end7 as int,
    ) == Seq::<u8>::empty() by {
        lemma_list_prefix(
            l.inverse_neg_powers_of_h,
            Seq::empty(),
            inverse_neg_powers_of_h@,
            all.skip(end7 as int),
        );
    }
    if end7 < bytes.len() {
        assert(all.skip(end7 as int).len() > 0);
        return None;
    }
    assert(all.skip(end7 as int) =~= Seq::<u8>::empty());
    Some(
        Parts {
            powers_of_g,
            powers_of_gamma_g,
            h,
            beta_h,
            supported_degree_bounds,
            inverse_powers_of_g,
            inverse_neg_powers_of_h,
        },
    )
}

/// Encodings of items tell them apart, whatever follows.
proof fn lemma_item_prefix<T: FixedWidth>(a: T, x: Seq<u8>, b: T, y: Seq<u8>)
    requires
        a.bytes() + x == b.bytes() + y,
    ensures
        a == b,
        x == y,
{
    T::lemma_encoding(a, b);
    T::lemma_encoding(b, a);
    lemma_split(a.bytes(), x, b.bytes(), y);
}

/// The layout of valid parameters is valid.
proof fn lemma_layout_valid(pp: UniversalParams, layout: Layout)
    requires
        pp.laid_out_as(layout),
        pp.is_valid(),
    ensures
        layout.is_valid(),
{
    assert forall|i: int| 0 <= i < layout.powers_of_gamma_g.len() implies (
    #[trigger] layout.powers_of_gamma_g[i]).is_valid() by {
        assert(pp.powers_of_gamma_g@.contains_key(layout.powers_of_gamma_g[i].0));
    }
    assert forall|i: int| 0 <= i < layout.inverse_powers_of_g.len() implies (
    #[trigger] layout.inverse_powers_of_g[i]).is_valid() by {
        assert(pp.inverse_powers_of_g@.contains_key(layout.inverse_powers_of_g[i].0));
    }
    assert forall|i: int| 0 <= i < layout.inverse_neg_powers_of_h.len() implies (
    #[trigger] layout.inverse_neg_powers_of_h[i]).is_valid() by {
        assert(pp.inverse_neg_powers_of_h@.contains_key(layout.inverse_neg_powers_of_h[i].0));
    }
}

/// Parameters with a valid layout are valid.
proof fn lemma_params_valid(pp: UniversalParams, layout: Layout)
    requires
        pp.laid_out_as(layout),
        layout.is_valid(),
    ensures
        pp.is_valid(),
{
    let gammas = layout.powers_of_gamma_g;
    assert forall|k: usize| #[trigger]
        pp.powers_of_gamma_g@.contains_key(k) implies pp.powers_of_gamma_g@[k].in_group() by {
        let i = choose|i: int| 0 <= i < gammas.len() && (#[trigger] gammas[i]).0 == k;
        assert(gammas[i].is_valid());
    }
    let shifts = layout.inverse_powers_of_g;
    assert forall|k: usize| #[trigger]
        pp.inverse_powers_of_g@.contains_key(k) implies pp.inverse_powers_of_g@[k].in_group() by {
        let i = choose|i: int| 0 <= i < shifts.len() && (#[trigger] shifts[i]).0 == k;
        assert(shifts[i].is_valid());
    }
    let shifts_h = layout.inverse_neg_powers_of_h;
    assert forall|k: usize| #[trigger]
        pp.inverse_neg_powers_of_h@.contains_key(
            k,
        ) implies pp.inverse_neg_powers_of_h@[k].in_group() by {
        let i = choose|i: int| 0 <= i < shifts_h.len() && (#[trigger] shifts_h[i]).0 == k;
        assert(shifts_h[i].is_valid());
    }
}

/// An encoding has one layout.
pub(crate) proof fn lemma_layout_unique(a: Layout, b: Layout)
    requires
        a.bytes() == b.bytes(),
        a.fits(),
        b.fits(),
    ensures
        a == b,
{
    lemma_list_prefix(
        a.powers_of_g,
        list_bytes(a.powers_of_gamma_g) + a.h_bytes(),
        b.powers_of_g,
        list_bytes(b.powers_of_gamma_g) + b.h_bytes(),
    );
    lemma_list_prefix(a.powers_of_gamma_g, a.h_bytes(), b.powers_of_gamma_g, b.h_bytes());
    lemma_item_prefix(
        a.h,
        a.beta_h.encoding() + a.bounds_bytes(),
        b.h,
        b.beta_h.encoding() + b.bounds_bytes(),
    );
    lemma_item_prefix(a.beta_h, a.bounds_bytes(), b.beta_h, b.bounds_bytes());
    let (ar, br) = (
        list_bytes(a.inverse_neg_powers_of_h) + Seq::empty(),
        list_bytes(b.inverse_neg_powers_of_h) + Seq::empty(),
    );
    lemma_list_prefix(
        a.supported_degree_bounds,
        list_bytes(a.inverse_powers_of_g) + ar,
        b.supported_degree_bounds,
        list_bytes(b.inverse_powers_of_g) + br,
    );
    lemma_list_prefix(a.inverse_powers_of_g, ar, b.inverse_powers_of_g, br);
    lemma_list_prefix(
        a.inverse_neg_powers_of_h,
        Seq::empty(),
        b.inverse_neg_powers_of_h,
        Seq::empty(),
    );
}

} // verus!
