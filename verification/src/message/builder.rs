use crate::error::Error;
use crate::marshal::endian::native_endianness;
use crate::marshal::Marshaller;
use crate::message::{Endianness, Flags, HeaderField, Message, MessageHeader, MessageType};
use crate::types::{DBusType, Signature};
use vstd::prelude::*;

verus! {

/// A serial number for a new message, drawn at random by `rand::random`; the
/// contract states only that it is not zero.
#[verifier::external_body]
fn random_serial() -> (s: u32)
    ensures
        s != 0,
{
    rand::random::<std::num::NonZeroU32>().get()
}

/// Gathers the header of a message around its body.
pub struct MessageBuilder<T> {
    endianness: Endianness,
    ty: MessageType,
    flags: Flags,
    version: u8,
    serial: u32,
    fields: Vec<HeaderField>,
    data: T,
}

impl<T> MessageBuilder<T> {
    #[verifier::type_invariant]
    closed spec fn serial_is_nonzero(&self) -> bool {
        self.serial != 0
    }

    pub closed spec fn spec_endianness(&self) -> Endianness {
        self.endianness
    }

    pub closed spec fn spec_ty(&self) -> MessageType {
        self.ty
    }

    pub closed spec fn spec_flags(&self) -> Flags {
        self.flags
    }

    pub closed spec fn spec_version(&self) -> u8 {
        self.version
    }

    pub closed spec fn spec_serial(&self) -> u32 {
        self.serial
    }

    pub closed spec fn spec_fields(&self) -> Seq<HeaderField> {
        self.fields@
    }

    pub closed spec fn spec_data(&self) -> T {
        self.data
    }

    /// Everything but the header fields is as in `other`.
    pub open spec fn same_but_fields(&self, other: &Self) -> bool {
        &&& self.spec_endianness() == other.spec_endianness()
        &&& self.spec_ty() == other.spec_ty()
        &&& self.spec_flags() == other.spec_flags()
        &&& self.spec_version() == other.spec_version()
        &&& self.spec_serial() == other.spec_serial()
        &&& self.spec_data() == other.spec_data()
    }

    pub fn message_type(&mut self, ty: MessageType)
        ensures
            final(self).spec_ty() == ty,
            final(self).spec_endianness() == old(self).spec_endianness(),
            final(self).spec_flags() == old(self).spec_flags(),
            final(self).spec_version() == old(self).spec_version(),
            final(self).spec_serial() == old(self).spec_serial(),
            final(self).spec_fields() == old(self).spec_fields(),
            final(self).spec_data() == old(self).spec_data(),
    {
        proof {
            use_type_invariant(&*self);
        }
        self.ty = ty;
    }

    pub fn add_field(&mut self, field: HeaderField)
        ensures
            final(self).spec_fields() == old(self).spec_fields().push(field),
            final(self).same_but_fields(old(self)),
    {
        proof {
            use_type_invariant(&*self);
        }
        let mut fields: Vec<HeaderField> = Vec::new();
        core::mem::swap(&mut fields, &mut self.fields);
        fields.push(field);
        self.fields = fields;
    }

    pub fn serial(&mut self) -> (s: u32)
        ensures
            s == old(self).spec_serial(),
            s != 0,
            *final(self) == *old(self),
    {
        proof {
            use_type_invariant(&*self);
        }
        self.serial
    }
}

impl<T: DBusType> MessageBuilder<T> {
    pub(super) fn new(data: T) -> (b: MessageBuilder<T>)
        ensures
            b.spec_ty() == MessageType::Invalid,
            b.spec_flags().deep_view() == 0,
            b.spec_version() == 1,
            b.spec_fields().len() == 0,
            b.spec_data() == data,
    {
        MessageBuilder {
            endianness: native_endianness(),
            ty: MessageType::Invalid,
            flags: Flags::empty(),
            version: 1,
            serial: random_serial(),
            fields: Vec::new(),
            data,
        }
    }

    /// Adds a header field that holds the signature of the body.
    pub fn add_signature(&mut self)
        ensures
            final(self).spec_fields().len() == old(self).spec_fields().len() + 1,
            final(self).spec_fields().take(old(self).spec_fields().len() as int) == old(
                self,
            ).spec_fields(),
            final(self).spec_fields().last() matches HeaderField::Signature(s) && s.deep_view()
                == T::spec_signature(),
            final(self).same_but_fields(old(self)),
    {
        let sig = T::signature();
        match Signature::new(sig.as_str()) {
            Ok(signature) => {
                let ghost before = self.fields@;
                self.add_field(HeaderField::Signature(signature));
                assert(self.fields@.take(before.len() as int) =~= before);
            },
            Err(_) => {},
        }
    }

    /// The body written in the message's byte order.
    fn encode_data(&self) -> (r: Result<Vec<u8>, Error>)
        requires
            T::spec_encode(self.data.deep_view(), self.endianness, 0).len() <= usize::MAX,
        ensures
            r matches Ok(v) && v@ == T::spec_encode(self.data.deep_view(), self.endianness, 0),
    {
        let mut marshaller = Marshaller::new(Vec::new(), self.endianness);
        self.data.encode(&mut marshaller)?;
        assert(marshaller.spec_bytes() =~= T::spec_encode(self.data.deep_view(), self.endianness, 0));
        Ok(marshaller.into_inner())
    }

    /// The message: a header made of what was gathered, with the body size
    /// set to the length of the body written in the message's byte order.
    pub fn build(self) -> (r: Result<Message<T>, Error>)
        requires
            T::spec_encode(self.spec_data().deep_view(), self.spec_endianness(), 0).len() <= usize::MAX,
        ensures
            r matches Ok(m) && {
                let h = m.spec_header();
                &&& h.endianness == self.spec_endianness()
                &&& h.ty == self.spec_ty()
                &&& h.flags == self.spec_flags()
                &&& h.version == self.spec_version()
                &&& h.body_size == T::spec_encode(
                    self.spec_data().deep_view(),
                    self.spec_endianness(),
                    0,
                ).len() as u32
                &&& h.serial == self.spec_serial()
                &&& h.serial != 0
                &&& h.fields@ == self.spec_fields()
                &&& m.spec_data() == self.spec_data()
            },
    {
        proof {
            use_type_invariant(&self);
        }
        let body = self.encode_data()?;
        let body_size = body.len();
        let header = MessageHeader {
            endianness: self.endianness,
            ty: self.ty,
            flags: self.flags,
            version: self.version,
            body_size: body_size as u32,
            serial: self.serial,
            fields: self.fields,
        };
        Ok(Message { header, data: self.data })
    }
}

} // verus!
