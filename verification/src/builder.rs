//! Building a message step by step.

use crate::attribute::{Attribute, AttributeView};
use crate::error::EncodeError;
use crate::message::{spec_attribute_views, Message, MessageView, Trailer};
use crate::message_type::{MessageClass, Method};
use crate::transaction_id::TransactionId;
use vstd::prelude::*;

verus! {

/// A message that is being built. Each step takes the builder and gives it
/// back; the last step, [`MessageBuilder::finish`] or
/// [`MessageBuilder::finish_with_fingerprint`], gives the message.
#[derive(Debug)]
pub struct MessageBuilder {
    class: MessageClass,
    method: Method,
    transaction_id: TransactionId,
    attributes: Vec<Attribute>,
}

impl View for MessageBuilder {
    type V = MessageView;

    closed spec fn view(&self) -> MessageView {
        MessageView {
            class: self.class,
            method: self.method,
            transaction_id: self.transaction_id@,
            attributes: spec_attribute_views(self.attributes@),
        }
    }
}

impl Message {
    /// Starts a message without attributes, under a fresh transaction id from
    /// an unpredictable source.
    pub fn build(class: MessageClass, method: Method) -> (builder: MessageBuilder)
        ensures
            builder@.class == class,
            builder@.method == method,
            builder@.transaction_id.len() == 12,
            builder@.attributes == Seq::<AttributeView>::empty(),
    {
        let attributes: Vec<Attribute> = Vec::new();
        let transaction_id: TransactionId = TransactionId::new();
        assert(spec_attribute_views(attributes@) =~= Seq::empty());
        MessageBuilder { class, method, transaction_id, attributes }
    }
}

impl MessageBuilder {
    /// Puts the message under a given transaction id.
    pub fn transaction_id(self, transaction_id: TransactionId) -> (builder: Self)
        ensures
            builder@ == (MessageView { transaction_id: transaction_id@, ..self@ }),
            builder@.transaction_id.len() == 12,
    {
        proof {
            transaction_id.lemma_len();
        }
        MessageBuilder {
            class: self.class,
            method: self.method,
            transaction_id,
            attributes: self.attributes,
        }
    }

    /// Adds an attribute behind those that the message holds.
    pub fn add_attribute(self, attr: Attribute) -> (builder: Self)
        ensures
            builder@ == self@.with_attribute(attr@),
    {
        let mut attributes: Vec<Attribute> = self.attributes;
        let ghost before = spec_attribute_views(attributes@);
        attributes.push(attr);
        assert(spec_attribute_views(attributes@) =~= before.push(attr@));
        MessageBuilder {
            class: self.class,
            method: self.method,
            transaction_id: self.transaction_id,
            attributes,
        }
    }

    /// The message as it was built.
    pub fn finish(self) -> (message: Message)
        ensures
            message@ == self@,
    {
        Message::from_parts(self.class, self.method, self.transaction_id, self.attributes)
    }

    /// The message as it was built, closed by a FINGERPRINT attribute: the
    /// length that the header will state is fixed first, the checksum is
    /// computed over the header and the attributes under that length, and
    /// only then the attribute is added.
    ///
    /// Fails as [`Message::encode_with_fingerprint`] does.
    pub fn finish_with_fingerprint(self) -> (finished: Result<Message, EncodeError>)
        ensures
            match finished {
                Ok(message) => {
                    &&& self@.encodable_ahead(Trailer::Fingerprint)
                    &&& message@ == self@.with_attribute(self@.spec_fingerprint_attribute())
                },
                Err(e) => self@.spec_rejects(Trailer::Fingerprint, e),
            },
            finished is Ok <==> self@.encodable_ahead(Trailer::Fingerprint),
    {
        let mut message: Message = self.finish();
        match message.add_fingerprint() {
            Ok(()) => Ok(message),
            Err(e) => Err(e),
        }
    }
}

} // verus!
