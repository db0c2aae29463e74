//! The debug channel. A message is copied into a buffer of fixed capacity
//! before it is handed on for output, so that output never needs memory of
//! unknown size.
use arrayvec::ArrayString;
use vstd::prelude::*;
use vstd::string::StringSliceAdditionalSpecFns;

verus! {

#[verifier::external_type_specification]
#[verifier::external_body]
pub struct ExArrayString<const CAP: usize>(ArrayString<CAP>);

/// The text that a message buffer holds.
pub uninterp spec fn message_text(message: ArrayString<128>) -> Seq<char>;

/// `ArrayString::new` makes a string that holds nothing.
#[verifier::external_body]
fn empty_message() -> (message: ArrayString<128>)
    ensures
        message_text(message) == Seq::<char>::empty(),
{
    ArrayString::new()
}

/// `ArrayString::push_str` adds a string slice to the end of the string. It
/// panics when the bytes of the slice do not fit into what is left of the
/// capacity, so such a slice is not admitted.
#[verifier::external_body]
fn append_message(message: &mut ArrayString<128>, text: &str)
    requires
        vstd::utf8::encode_utf8(message_text(*old(message))).len() + text.spec_bytes().len()
            <= 128,
    ensures
        message_text(*final(message)) == message_text(*old(message)) + text@,
{
    message.push_str(text)
}

/// `ArrayString::as_str` gives the whole string as a slice.
#[verifier::external_body]
fn message_slice(message: &ArrayString<128>) -> (text: &str)
    ensures
        text@ == message_text(*message),
{
    message.as_str()
}

/// The debug channel.
pub struct DBG;

impl DBG {
    /// Copies a message of at most 128 bytes into a buffer.
    pub fn buffer(&self, text: &str) -> (message: ArrayString<128>)
        requires
            text.spec_bytes().len() <= 128,
        ensures
            message_text(message) == text@,
    {
        let mut message = empty_message();
        proof {
            assert(vstd::utf8::encode_utf8(Seq::<char>::empty()).len() == 0);
            assert(Seq::<char>::empty() + text@ =~= text@);
        }
        append_message(&mut message, text);
        message
    }

    /// The text of a buffered message.
    pub fn text<'a>(&self, message: &'a ArrayString<128>) -> (text: &'a str)
        ensures
            text@ == message_text(*message),
    {
        message_slice(message)
    }
}

} // verus!
