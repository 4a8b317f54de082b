//! The owned text handle: a byte buffer that ends in its one terminator and
//! is compared by the text that the bytes before it decode to.
use vstd::prelude::*;
use vstd::slice::slice_subrange;
use vstd::std_specs::cmp::PartialEqSpec;
use vstd::string::StringSliceAdditionalSpecFns;
use vstd::utf8::{
    decode_utf8,
    decode_utf8_encode_utf8,
    encode_utf8,
    encode_utf8_decode_utf8,
    encode_utf8_valid_utf8,
    valid_utf8,
};

verus! {

#[verifier::external_type_specification]
#[verifier::external_body]
pub struct ExUtf8Error(core::str::Utf8Error);

/// `core::str::from_utf8` succeeds exactly on well-formed UTF-8, and the
/// string slice it then returns covers the bytes it was given.
pub assume_specification<'a>[ core::str::from_utf8 ](v: &'a [u8]) -> (r: Result<
    &'a str,
    core::str::Utf8Error,
>)
    ensures
        r is Ok <==> valid_utf8(v@),
        r matches Ok(s) ==> s.spec_bytes() == v@,
;

/// No byte of the buffer is the terminator.
pub open spec fn no_terminator(bytes: Seq<u8>) -> bool {
    forall|i: int| 0 <= i < bytes.len() ==> bytes[i] != 0
}

/// The bytes of the text that a buffer stands for: the buffer itself where
/// it is well-formed UTF-8, and nothing where it is not.
pub open spec fn text_bytes_of(bytes: Seq<u8>) -> Seq<u8> {
    if valid_utf8(bytes) {
        bytes
    } else {
        Seq::empty()
    }
}

/// The text that a buffer decodes to: its characters where it is well-formed
/// UTF-8, and the empty text where it is not.
pub open spec fn text_of(bytes: Seq<u8>) -> Seq<char> {
    if valid_utf8(bytes) {
        decode_utf8(bytes)
    } else {
        Seq::empty()
    }
}

/// Two buffers decode to the same text exactly when the bytes of their texts
/// are the same.
pub proof fn lemma_text_by_bytes(a: Seq<u8>, b: Seq<u8>)
    ensures
        text_of(a) == text_of(b) <==> text_bytes_of(a) == text_bytes_of(b),
        text_of(a) == decode_utf8(text_bytes_of(a)),
        valid_utf8(text_bytes_of(a)),
        encode_utf8(text_of(a)) == text_bytes_of(a),
{
    let empty = Seq::<u8>::empty();
    assert(valid_utf8(empty));
    assert(decode_utf8(empty) == Seq::<char>::empty());
    decode_utf8_encode_utf8(text_bytes_of(a));
    decode_utf8_encode_utf8(text_bytes_of(b));
}

/// The text of a string slice, encoded and decoded again, is itself.
pub proof fn lemma_text_of_encoding(text: Seq<char>)
    ensures
        text_of(encode_utf8(text)) == text,
        text_bytes_of(encode_utf8(text)) == encode_utf8(text),
{
    encode_utf8_valid_utf8(text);
    encode_utf8_decode_utf8(text);
}

/// Whether two byte slices hold the same bytes.
pub fn bytes_equal(left: &[u8], right: &[u8]) -> (r: bool)
    ensures
        r == (left@ == right@),
{
    if left.len() != right.len() {
        return false;
    }
    let mut i: usize = 0;
    while i < left.len()
        invariant
            i <= left.len(),
            left.len() == right.len(),
            forall|j: int| 0 <= j < i ==> left@[j] == right@[j],
        decreases left.len() - i,
    {
        if left[i] != right[i] {
            return false;
        }
        i = i + 1;
    }
    assert(left@ =~= right@);
    true
}

/// How one text stands to another in the order of texts.
#[derive(Clone, Copy, Debug, PartialEq, Eq, Hash, Structural)]
pub enum TextOrder {
    Less,
    Equal,
    Greater,
}

/// The order of two byte sequences by their first difference; a sequence
/// comes before each sequence that it begins. This is the order of texts,
/// taken on their encodings.
pub open spec fn lexical_order(left: Seq<u8>, right: Seq<u8>) -> TextOrder
    decreases left.len(),
{
    if left.len() == 0 {
        if right.len() == 0 {
            TextOrder::Equal
        } else {
            TextOrder::Less
        }
    } else if right.len() == 0 {
        TextOrder::Greater
    } else if left[0] < right[0] {
        TextOrder::Less
    } else if left[0] > right[0] {
        TextOrder::Greater
    } else {
        lexical_order(left.drop_first(), right.drop_first())
    }
}

/// The order agrees with equality, and turning the sides round turns the
/// outcome round.
pub proof fn lemma_lexical_order(left: Seq<u8>, right: Seq<u8>)
    ensures
        lexical_order(left, right) == TextOrder::Equal <==> left == right,
        lexical_order(left, right) == TextOrder::Less <==> lexical_order(right, left)
            == TextOrder::Greater,
    decreases left.len(),
{
    if left.len() > 0 && right.len() > 0 {
        lemma_lexical_order(left.drop_first(), right.drop_first());
        if left[0] == right[0] && left.drop_first() == right.drop_first() {
            assert(left =~= seq![left[0]] + left.drop_first());
            assert(right =~= seq![right[0]] + right.drop_first());
        }
    } else if left.len() == 0 && right.len() == 0 {
        assert(left =~= right);
    }
}

/// How the bytes of one slice stand to those of another.
pub fn compare_bytes(left: &[u8], right: &[u8]) -> (r: TextOrder)
    ensures
        r == lexical_order(left@, right@),
{
    let mut i: usize = 0;
    assert(left@.skip(0) == left@ && right@.skip(0) == right@);
    while i < left.len() && i < right.len()
        invariant
            i <= left.len(),
            i <= right.len(),
            lexical_order(left@, right@) == lexical_order(
                left@.skip(i as int),
                right@.skip(i as int),
            ),
        decreases left.len() - i,
    {
        proof {
            assert(left@.skip(i as int).drop_first() == left@.skip(i + 1));
            assert(right@.skip(i as int).drop_first() == right@.skip(i + 1));
        }
        if left[i] < right[i] {
            return TextOrder::Less;
        }
        if left[i] > right[i] {
            return TextOrder::Greater;
        }
        i = i + 1;
    }
    if i < right.len() {
        TextOrder::Less
    } else if i < left.len() {
        TextOrder::Greater
    } else {
        TextOrder::Equal
    }
}

/// Whether two string slices hold the same text.
pub fn same_text(a: &str, b: &str) -> (r: bool)
    ensures
        r == (a@ == b@),
{
    proof {
        encode_utf8_decode_utf8(a@);
        encode_utf8_decode_utf8(b@);
    }
    bytes_equal(a.as_bytes(), b.as_bytes())
}

/// Whether the buffer holds a terminator byte.
pub fn has_terminator(bytes: &[u8]) -> (r: bool)
    ensures
        r == !no_terminator(bytes@),
{
    let mut i: usize = 0;
    while i < bytes.len()
        invariant
            i <= bytes.len(),
            forall|j: int| 0 <= j < i ==> bytes@[j] != 0,
        decreases bytes.len() - i,
    {
        if bytes[i] == 0 {
            return true;
        }
        i = i + 1;
    }
    false
}

/// An exclusively owned buffer of text bytes that ends in a terminator. Its
/// view is the bytes before the terminator, none of which is one.
#[derive(Debug)]
pub struct RustCStringWrapper {
    buffer: Vec<u8>,
    well_formed: bool,
}

impl View for RustCStringWrapper {
    type V = Seq<u8>;

    closed spec fn view(&self) -> Seq<u8> {
        self.buffer@.drop_last()
    }
}

impl RustCStringWrapper {
    #[verifier::type_invariant]
    spec fn inv(self) -> bool {
        &&& self.buffer@.len() > 0
        &&& self.buffer@.last() == 0
        &&& no_terminator(self.buffer@.drop_last())
        &&& self.well_formed == valid_utf8(self.buffer@.drop_last())
    }

    /// The text of the handle, by which handles are compared.
    pub open spec fn text(&self) -> Seq<char> {
        text_of(self@)
    }

    /// Adopts a buffer that holds no terminator byte.
    pub fn new(str_data: Vec<u8>) -> (r: RustCStringWrapper)
        requires
            no_terminator(str_data@),
        ensures
            r@ == str_data@,
    {
        let well_formed = core::str::from_utf8(str_data.as_slice()).is_ok();
        let mut buffer = str_data;
        buffer.push(0);
        assert(buffer@.drop_last() == str_data@);
        RustCStringWrapper { buffer, well_formed }
    }

    /// Adopts a buffer, unless it holds a terminator byte.
    pub fn try_new(str_data: Vec<u8>) -> (r: Option<RustCStringWrapper>)
        ensures
            r is Some <==> no_terminator(str_data@),
            r matches Some(h) ==> h@ == str_data@,
    {
        if has_terminator(str_data.as_slice()) {
            None
        } else {
            Some(RustCStringWrapper::new(str_data))
        }
    }

    /// A handle on a copy of the text's bytes, unless the text holds the
    /// terminator character.
    pub fn from_text(text: &str) -> (r: Option<RustCStringWrapper>)
        ensures
            r is Some <==> no_terminator(encode_utf8(text@)),
            r matches Some(h) ==> h@ == encode_utf8(text@) && h.text() == text@,
    {
        proof {
            lemma_text_of_encoding(text@);
        }
        RustCStringWrapper::try_new(copy_of(text.as_bytes()))
    }

    /// A handle on an independent copy of the same bytes.
    pub fn from_copy(&self) -> (r: RustCStringWrapper)
        ensures
            r@ == self@,
    {
        proof {
            use_type_invariant(self);
        }
        RustCStringWrapper {
            buffer: copy_of(self.buffer.as_slice()),
            well_formed: self.well_formed,
        }
    }

    /// The bytes of the handle, for reading.
    pub fn as_bytes(&self) -> (r: &[u8])
        ensures
            r@ == self@,
            no_terminator(r@),
    {
        proof {
            use_type_invariant(self);
        }
        slice_subrange(self.buffer.as_slice(), 0, self.buffer.len() - 1)
    }

    /// The whole buffer, for reading: the bytes of the handle and, last, the
    /// one terminator.
    pub fn as_bytes_with_nul(&self) -> (r: &[u8])
        ensures
            r@ == self@.push(0),
            no_terminator(self@),
    {
        proof {
            use_type_invariant(self);
            assert(self.buffer@ == self.buffer@.drop_last().push(0));
        }
        self.buffer.as_slice()
    }

    /// The bytes of the handle's text: all of its bytes, or none where they
    /// are not well-formed UTF-8.
    pub fn text_bytes(&self) -> (r: &[u8])
        ensures
            r@ == text_bytes_of(self@),
    {
        proof {
            use_type_invariant(self);
        }
        if self.well_formed {
            slice_subrange(self.buffer.as_slice(), 0, self.buffer.len() - 1)
        } else {
            slice_subrange(self.buffer.as_slice(), 0, 0)
        }
    }

    /// The number of bytes in the handle.
    pub fn len(&self) -> (r: usize)
        ensures
            r == self@.len(),
    {
        proof {
            use_type_invariant(self);
        }
        self.buffer.len() - 1
    }

    /// The decoded text: empty where the bytes are not well-formed UTF-8.
    pub fn to_string(&self) -> (r: String)
        ensures
            r@ == self.text(),
    {
        match core::str::from_utf8(self.as_bytes()) {
            Ok(s) => {
                proof {
                    encode_utf8_decode_utf8(s@);
                }
                s.to_owned()
            },
            Err(_) => String::new(),
        }
    }

    /// How the handle's text stands to the text of another handle.
    pub fn compare(&self, other: &RustCStringWrapper) -> (r: TextOrder)
        ensures
            r == lexical_order(text_bytes_of(self@), text_bytes_of(other@)),
            r == TextOrder::Equal <==> self.text() == other.text(),
    {
        proof {
            lemma_text_by_bytes(self@, other@);
            lemma_lexical_order(text_bytes_of(self@), text_bytes_of(other@));
        }
        compare_bytes(self.text_bytes(), other.text_bytes())
    }

    /// Whether the handle's text is the given text.
    pub fn is_text(&self, text: &str) -> (r: bool)
        ensures
            r == (self.text() == text@),
    {
        proof {
            lemma_text_of_encoding(text@);
            lemma_text_by_bytes(self@, encode_utf8(text@));
        }
        bytes_equal(self.text_bytes(), text.as_bytes())
    }
}

/// A fresh vector with the bytes of the slice.
pub fn copy_of(bytes: &[u8]) -> (r: Vec<u8>)
    ensures
        r@ == bytes@,
{
    let mut copy: Vec<u8> = Vec::with_capacity(bytes.len());
    let mut i: usize = 0;
    while i < bytes.len()
        invariant
            i <= bytes.len(),
            copy@ == bytes@.subrange(0, i as int),
        decreases bytes.len() - i,
    {
        copy.push(bytes[i]);
        assert(copy@ == bytes@.subrange(0, i + 1));
        i = i + 1;
    }
    assert(copy@ == bytes@);
    copy
}

impl Clone for RustCStringWrapper {
    fn clone(&self) -> (r: Self)
        ensures
            r@ == self@,
    {
        self.from_copy()
    }
}

impl PartialEq for RustCStringWrapper {
    fn eq(&self, other: &Self) -> (r: bool) {
        proof {
            lemma_text_by_bytes(self@, other@);
        }
        bytes_equal(self.text_bytes(), other.text_bytes())
    }
}

impl Eq for RustCStringWrapper {

}

impl vstd::std_specs::cmp::PartialEqSpecImpl for RustCStringWrapper {
    open spec fn obeys_eq_spec() -> bool {
        true
    }

    open spec fn eq_spec(&self, other: &Self) -> bool {
        self.text() == other.text()
    }
}

/// A handle made from a buffer decodes to the buffer's text, and two handles
/// made from buffers with the same bytes are equal, wherever the buffers lie.
pub proof fn lemma_text_round_trip(bytes: Seq<u8>, a: RustCStringWrapper, b: RustCStringWrapper)
    requires
        a@ == bytes,
        b@ == bytes,
    ensures
        a.text() == text_of(bytes),
        valid_utf8(bytes) ==> a.text() == decode_utf8(bytes),
        a.text() == b.text(),
        a.eq_spec(&b),
{
}

/// Handles are equal exactly when their texts are, whatever their bytes:
/// equality is reflexive, symmetric and transitive.
pub proof fn lemma_equality_by_text(
    a: RustCStringWrapper,
    b: RustCStringWrapper,
    c: RustCStringWrapper,
)
    ensures
        a.eq_spec(&a),
        a.eq_spec(&b) == b.eq_spec(&a),
        a.eq_spec(&b) && b.eq_spec(&c) ==> a.eq_spec(&c),
        a.eq_spec(&b) <==> text_bytes_of(a@) == text_bytes_of(b@),
{
    lemma_text_by_bytes(a@, b@);
}

} // verus!
