//! Records described at run time: the kinds of their fields, where each field
//! lies, and a buffer that is read and written through that description.

use vstd::prelude::*;
use vstd::arithmetic::power2::lemma2_to64;
use crate::codec::{get_bits, set_bits};
use crate::model::{field_value, fits, in_buffer, write_bits, MAX_BITS};
use crate::model::{lemma_write_keeps_other_fields, lemma_write_then_read};
use crate::enumerated::EnumDescriptor;
use crate::error::Error;
use crate::storage::{narrowest, StorageKind};

verus! {

/// What the bits of a field stand for.
pub enum FieldKind {
    /// An unsigned integer.
    Integer,
    /// One bit, false or true.
    Boolean,
    /// One variant of an enumerated type.
    Enumerated(EnumDescriptor),
}

/// A value of a field, as a caller reads and writes it.
#[derive(Debug, Clone, Copy, PartialEq, Eq, Structural)]
pub enum Interface {
    /// The value of an integer field.
    Integer(u128),
    /// The value of a boolean field.
    Boolean(bool),
    /// The value of an enumerated field: the index of a variant in the order
    /// of the declaration.
    Variant(usize),
}

/// A kind of field: its width, and what its bits stand for.
pub struct TypeDescriptor {
    bits: usize,
    kind: FieldKind,
}

impl TypeDescriptor {
    /// The width of the field, in bits.
    pub closed spec fn width(&self) -> nat {
        self.bits as nat
    }

    /// What the bits of the field stand for.
    pub closed spec fn kind(&self) -> FieldKind {
        self.kind
    }

    /// What every descriptor meets: an integer has 1 to 128 bits, a boolean
    /// has one, and an enumerated field has the width of its type.
    #[verifier::type_invariant]
    pub open spec fn wf(&self) -> bool {
        &&& self.width() <= MAX_BITS
        &&& match self.kind() {
            FieldKind::Integer => self.width() >= 1,
            FieldKind::Boolean => self.width() == 1,
            FieldKind::Enumerated(e) => e.wf() && e.width() == self.width(),
        }
    }

    /// Whether a value is of the kind of the field.
    pub open spec fn admits(&self, val: Interface) -> bool {
        match (self.kind(), val) {
            (FieldKind::Integer, Interface::Integer(_)) => true,
            (FieldKind::Boolean, Interface::Boolean(_)) => true,
            (FieldKind::Enumerated(e), Interface::Variant(i)) => i < e.variants().len(),
            _ => false,
        }
    }

    /// Whether the field can hold a value: it is of the kind of the field; an
    /// integer fits in the width; a variant is the first with its
    /// discriminant.
    pub open spec fn representable(&self, val: Interface) -> bool {
        match (self.kind(), val) {
            (FieldKind::Integer, Interface::Integer(v)) => fits(v, self.width()),
            (FieldKind::Boolean, Interface::Boolean(_)) => true,
            (FieldKind::Enumerated(e), Interface::Variant(i)) => e.representable(i as int),
            _ => false,
        }
    }

    /// The raw bits of a value.
    pub open spec fn encode(&self, val: Interface) -> u128 {
        match (self.kind(), val) {
            (FieldKind::Integer, Interface::Integer(v)) => v,
            (FieldKind::Boolean, Interface::Boolean(b)) => if b {
                1
            } else {
                0
            },
            (FieldKind::Enumerated(e), Interface::Variant(i)) => e.encode(i as int),
            _ => 0,
        }
    }

    /// The value of raw bits, or why they stand for none.
    pub open spec fn decode(&self, raw: u128) -> Result<Interface, Error> {
        match self.kind() {
            FieldKind::Integer => Ok(Interface::Integer(raw)),
            FieldKind::Boolean => if raw == 0 {
                Ok(Interface::Boolean(false))
            } else if raw == 1 {
                Ok(Interface::Boolean(true))
            } else {
                Err(Error::InvalidDiscriminant)
            },
            FieldKind::Enumerated(e) => match e.decode(raw) {
                Ok(i) => Ok(Interface::Variant(i)),
                Err(err) => Err(err),
            },
        }
    }

    /// The raw bits of a value that the field can hold fit in the field, and
    /// decode to that value.
    pub proof fn lemma_decode_encode(&self, val: Interface)
        requires
            self.wf(),
            self.representable(val),
        ensures
            fits(self.encode(val), self.width()),
            self.decode(self.encode(val)) == Ok::<Interface, Error>(val),
    {
        lemma2_to64();
    }

    /// An integer field of `bits` bits.
    pub fn integer(bits: usize) -> (d: TypeDescriptor)
        requires
            1 <= bits <= MAX_BITS,
        ensures
            d.wf(),
            d.width() == bits,
            d.kind() == FieldKind::Integer,
    {
        TypeDescriptor { bits, kind: FieldKind::Integer }
    }

    /// A boolean field, of one bit.
    pub fn boolean() -> (d: TypeDescriptor)
        ensures
            d.wf(),
            d.width() == 1,
            d.kind() == FieldKind::Boolean,
    {
        TypeDescriptor { bits: 1, kind: FieldKind::Boolean }
    }

    /// A field of the enumerated type `e`, as wide as `e` says.
    pub fn enumerated(e: EnumDescriptor) -> (d: TypeDescriptor)
        ensures
            d.wf(),
            d.width() == e.width(),
            d.kind() == FieldKind::Enumerated(e),
    {
        proof {
            use_type_invariant(&e);
        }
        let bits = e.bits();
        TypeDescriptor { bits, kind: FieldKind::Enumerated(e) }
    }

    /// The width of the field, in bits.
    pub fn bits(&self) -> (bits: usize)
        ensures
            bits == self.width(),
    {
        self.bits
    }

    /// The narrowest unsigned integer type that holds the raw bits.
    pub fn storage(&self) -> (kind: StorageKind)
        ensures
            kind == narrowest(self.width()),
            self.width() <= kind.width(),
    {
        proof {
            use_type_invariant(self);
        }
        StorageKind::for_bits(self.bits)
    }

    /// The value of raw bits, or why they stand for none.
    pub fn to_interface(&self, raw: u128) -> (r: Result<Interface, Error>)
        ensures
            r == self.decode(raw),
    {
        match &self.kind {
            FieldKind::Integer => Ok(Interface::Integer(raw)),
            FieldKind::Boolean => if raw == 0 {
                Ok(Interface::Boolean(false))
            } else if raw == 1 {
                Ok(Interface::Boolean(true))
            } else {
                Err(Error::InvalidDiscriminant)
            },
            FieldKind::Enumerated(e) => match e.to_interface(raw) {
                Ok(i) => Ok(Interface::Variant(i)),
                Err(err) => Err(err),
            },
        }
    }

    /// The raw bits of a value of the kind of the field.
    pub fn from_interface(&self, val: Interface) -> (raw: u128)
        requires
            self.admits(val),
        ensures
            raw == self.encode(val),
    {
        match (&self.kind, val) {
            (FieldKind::Integer, Interface::Integer(v)) => v,
            (FieldKind::Boolean, Interface::Boolean(b)) => if b {
                1
            } else {
                0
            },
            (FieldKind::Enumerated(e), Interface::Variant(i)) => e.from_interface(i),
            _ => 0,
        }
    }
}

/// One field as it is declared: its name and its kind.
pub struct FieldDecl {
    pub name: String,
    pub descriptor: TypeDescriptor,
}

/// The sum of the widths of the first `n` fields: the bit at which field `n`
/// starts when the fields are packed without gaps.
pub open spec fn offset_of(fields: Seq<FieldDecl>, n: int) -> nat
    decreases n,
{
    if n <= 0 {
        0
    } else {
        offset_of(fields, n - 1) + fields[n - 1].descriptor.width()
    }
}

/// The sum of the widths of all fields.
pub open spec fn total_width(fields: Seq<FieldDecl>) -> nat {
    offset_of(fields, fields.len() as int)
}

/// Whether every field has a descriptor that was built.
pub open spec fn all_wf(fields: Seq<FieldDecl>) -> bool {
    forall|i: int| 0 <= i < fields.len() ==> (#[trigger] fields[i]).descriptor.wf()
}

/// A field ends where a later field starts, or before.
pub proof fn lemma_offsets_ordered(fields: Seq<FieldDecl>, i: int, j: int)
    requires
        0 <= i < j <= fields.len(),
    ensures
        offset_of(fields, i) + fields[i].descriptor.width() <= offset_of(fields, j),
    decreases j - i,
{
    if j > i + 1 {
        lemma_offsets_ordered(fields, i, j - 1);
    }
}

/// The fields of a record in the order of their declaration, packed without
/// gaps from bit 0 on, in a whole number of bytes.
pub struct RecordLayout {
    fields: Vec<FieldDecl>,
    offsets: Vec<usize>,
    total_bits: usize,
}

impl RecordLayout {
    /// The fields, in the order of their declaration.
    pub closed spec fn fields(&self) -> Seq<FieldDecl> {
        self.fields@
    }

    /// The bit at which each field starts.
    pub closed spec fn offsets(&self) -> Seq<usize> {
        self.offsets@
    }

    /// The number of bits of a record.
    pub closed spec fn total_bits(&self) -> nat {
        self.total_bits as nat
    }

    /// What every layout meets: each field starts where the one before it
    /// ends, the first at bit 0, and together they fill a whole number of
    /// bytes.
    #[verifier::type_invariant]
    pub open spec fn wf(&self) -> bool {
        &&& all_wf(self.fields())
        &&& self.offsets().len() == self.fields().len()
        &&& forall|i: int|
            0 <= i < self.fields().len() ==> #[trigger] self.offsets()[i] == offset_of(self.fields(), i)
        &&& self.total_bits() == total_width(self.fields())
        &&& self.total_bits() % 8 == 0
    }

    /// The descriptor of field `i`.
    pub open spec fn descriptor(&self, i: int) -> TypeDescriptor {
        self.fields()[i].descriptor
    }

    /// Every field of a layout lies inside a buffer of the layout's size.
    pub proof fn lemma_field_in_buffer(&self, data: Seq<u8>, i: int)
        requires
            self.wf(),
            8 * data.len() == self.total_bits(),
            0 <= i < self.fields().len(),
        ensures
            in_buffer(data, self.offsets()[i] as int, self.descriptor(i).width() as int),
    {
        lemma_offsets_ordered(self.fields(), i, self.fields().len() as int);
    }

    /// Two different fields of a layout share no bit.
    pub proof fn lemma_fields_disjoint(&self, i: int, j: int)
        requires
            self.wf(),
            0 <= i < self.fields().len(),
            0 <= j < self.fields().len(),
            i != j,
        ensures
            self.offsets()[i] + self.descriptor(i).width() <= self.offsets()[j] || self.offsets()[j]
                + self.descriptor(j).width() <= self.offsets()[i],
    {
        if i < j {
            lemma_offsets_ordered(self.fields(), i, j);
        } else {
            lemma_offsets_ordered(self.fields(), j, i);
        }
    }

    /// The layout of the fields declared, in that order. Fails where their
    /// widths do not add up to a whole number of bytes.
    pub fn new(fields: Vec<FieldDecl>) -> (r: Result<RecordLayout, Error>)
        requires
            total_width(fields@) <= usize::MAX,
        ensures
            total_width(fields@) % 8 != 0 ==> r == Err::<RecordLayout, Error>(
                Error::MisalignedRecord(total_width(fields@) as usize),
            ),
            total_width(fields@) % 8 == 0 ==> {
                &&& r is Ok
                &&& r->Ok_0.wf()
                &&& r->Ok_0.fields() == fields@
            },
    {
        let mut offsets: Vec<usize> = Vec::new();
        let mut total: usize = 0;
        let mut i: usize = 0;
        while i < fields.len()
            invariant
                i <= fields@.len(),
                offsets@.len() == i,
                total == offset_of(fields@, i as int),
                total_width(fields@) <= usize::MAX,
                forall|k: int| 0 <= k < i ==> #[trigger] offsets@[k] == offset_of(fields@, k),
                forall|k: int| 0 <= k < i ==> (#[trigger] fields@[k]).descriptor.wf(),
            decreases fields@.len() - i,
        {
            let descriptor = &fields[i].descriptor;
            proof {
                use_type_invariant(descriptor);
                if i + 1 < fields@.len() {
                    lemma_offsets_ordered(fields@, i as int, fields@.len() as int);
                }
            }
            offsets.push(total);
            total = total + descriptor.bits();
            i += 1;
        }
        if total % 8 != 0 {
            return Err(Error::MisalignedRecord(total));
        }
        Ok(RecordLayout { fields, offsets, total_bits: total })
    }

    /// The number of fields.
    pub fn len(&self) -> (n: usize)
        ensures
            n == self.fields().len(),
    {
        self.fields.len()
    }

    /// The number of bits of a record.
    pub fn bits(&self) -> (bits: usize)
        ensures
            bits == self.total_bits(),
    {
        self.total_bits
    }

    /// The bit at which field `index` starts.
    pub fn offset(&self, index: usize) -> (offset: usize)
        requires
            index < self.fields().len(),
        ensures
            offset == offset_of(self.fields(), index as int),
    {
        proof {
            use_type_invariant(self);
        }
        self.offsets[index]
    }

    /// The declaration of field `index`.
    pub fn field(&self, index: usize) -> (field: &FieldDecl)
        requires
            index < self.fields().len(),
        ensures
            *field == self.fields()[index as int],
    {
        &self.fields[index]
    }

    /// The index of the first field of this name.
    pub fn index_of(&self, name: &String) -> (r: Option<usize>)
        ensures
            match r {
                Some(i) => {
                    &&& i < self.fields().len()
                    &&& self.fields()[i as int].name@ == name@
                    &&& forall|k: int| 0 <= k < i ==> (#[trigger] self.fields()[k]).name@ != name@
                },
                None => forall|k: int|
                    0 <= k < self.fields().len() ==> (#[trigger] self.fields()[k]).name@ != name@,
            },
    {
        let mut i: usize = 0;
        while i < self.fields.len()
            invariant
                i <= self.fields().len(),
                forall|k: int| 0 <= k < i ==> (#[trigger] self.fields()[k]).name@ != name@,
            decreases self.fields().len() - i,
        {
            if self.fields[i].name.eq(name) {
                return Some(i);
            }
            i += 1;
        }
        None
    }
}

/// A buffer laid out as a [`RecordLayout`] says.
pub struct Record<'a> {
    layout: &'a RecordLayout,
    data: Vec<u8>,
}

impl<'a> View for Record<'a> {
    type V = Seq<u8>;

    /// The bytes of the record.
    closed spec fn view(&self) -> Seq<u8> {
        self.data@
    }
}

impl<'a> Record<'a> {
    /// The layout of the record.
    pub closed spec fn layout(&self) -> RecordLayout {
        *self.layout
    }

    /// What every record that was built meets: its buffer has the size that
    /// its layout says.
    pub open spec fn wf(&self) -> bool {
        &&& self.layout().wf()
        &&& 8 * self@.len() == self.layout().total_bits()
    }

    /// What `get` returns for field `i`.
    pub open spec fn value(&self, i: int) -> Result<Interface, Error> {
        self.layout().descriptor(i).decode(
            field_value(self@, self.layout().offsets()[i] as int, self.layout().descriptor(i).width()),
        )
    }

    /// A record of this layout whose bits are all zero.
    pub fn new(layout: &'a RecordLayout) -> (record: Record<'a>)
        ensures
            record.wf(),
            record.layout() == *layout,
            record@ == Seq::new(layout.total_bits() / 8, |i: int| 0u8),
    {
        proof {
            use_type_invariant(layout);
        }
        let size: usize = layout.total_bits / 8;
        let mut data: Vec<u8> = Vec::new();
        let mut i: usize = 0;
        while i < size
            invariant
                i <= size,
                data@.len() == i,
                forall|k: int| 0 <= k < i ==> data@[k] == 0u8,
            decreases size - i,
        {
            data.push(0u8);
            i += 1;
        }
        assert(data@ =~= Seq::new(layout.total_bits() / 8, |i: int| 0u8));
        Record { layout, data }
    }

    /// A record of this layout over bytes that exist already, where there are
    /// as many as the layout asks for.
    pub fn from_bytes(layout: &'a RecordLayout, data: Vec<u8>) -> (r: Option<Record<'a>>)
        ensures
            8 * data@.len() != layout.total_bits() ==> r is None,
            8 * data@.len() == layout.total_bits() ==> {
                &&& r is Some
                &&& r->Some_0.wf()
                &&& r->Some_0.layout() == *layout
                &&& r->Some_0@ == data@
            },
    {
        proof {
            use_type_invariant(layout);
        }
        if data.len() == layout.total_bits / 8 {
            Some(Record { layout, data })
        } else {
            None
        }
    }

    /// The bytes of the record, which ends here.
    pub fn into_bytes(self) -> (bytes: Vec<u8>)
        ensures
            bytes@ == self@,
    {
        self.data
    }

    /// The bytes of the record.
    pub fn bytes(&self) -> (bytes: &[u8])
        ensures
            bytes@ == self@,
    {
        self.data.as_slice()
    }

    /// Reads field `index`.
    pub fn get(&self, index: usize) -> (r: Result<Interface, Error>)
        requires
            self.wf(),
            index < self.layout().fields().len(),
        ensures
            r == self.value(index as int),
    {
        proof {
            self.layout().lemma_field_in_buffer(self@, index as int);
        }
        let descriptor = &self.layout.fields[index].descriptor;
        let raw = get_bits(self.data.as_slice(), self.layout.offsets[index], descriptor.bits());
        descriptor.to_interface(raw)
    }

    /// Writes `val` to field `index`. Every other field reads as before, and
    /// this one reads `val` where it can hold `val`.
    pub fn set(&mut self, index: usize, val: Interface)
        requires
            old(self).wf(),
            index < old(self).layout().fields().len(),
            old(self).layout().descriptor(index as int).admits(val),
        ensures
            final(self).wf(),
            final(self).layout() == old(self).layout(),
            final(self)@ == write_bits(
                old(self)@,
                old(self).layout().offsets()[index as int] as int,
                old(self).layout().descriptor(index as int).width(),
                old(self).layout().descriptor(index as int).encode(val),
            ),
            old(self).layout().descriptor(index as int).representable(val) ==> final(self).value(
                index as int,
            ) == Ok::<Interface, Error>(val),
            forall|j: int|
                0 <= j < old(self).layout().fields().len() && j != index ==> final(self).value(j)
                    == old(self).value(j),
    {
        let ghost before = self@;
        let ghost layout = self.layout();
        let ghost offset = layout.offsets()[index as int] as int;
        let ghost width = layout.descriptor(index as int).width();
        let descriptor = &self.layout.fields[index].descriptor;
        let raw = descriptor.from_interface(val);
        proof {
            layout.lemma_field_in_buffer(before, index as int);
            lemma_write_then_read(before, offset, width, raw);
            if layout.descriptor(index as int).representable(val) {
                layout.descriptor(index as int).lemma_decode_encode(val);
            }
            assert forall|j: int| 0 <= j < layout.fields().len() && j != index implies field_value(
                write_bits(before, offset, width, raw),
                layout.offsets()[j] as int,
                layout.descriptor(j).width(),
            ) == field_value(before, layout.offsets()[j] as int, layout.descriptor(j).width()) by {
                layout.lemma_field_in_buffer(before, j);
                layout.lemma_fields_disjoint(index as int, j);
                lemma_write_keeps_other_fields(
                    before,
                    offset,
                    width,
                    raw,
                    layout.offsets()[j] as int,
                    layout.descriptor(j).width(),
                );
            }
        }
        set_bits(self.data.as_mut_slice(), self.layout.offsets[index], descriptor.bits(), raw);
    }
}

} // verus!
