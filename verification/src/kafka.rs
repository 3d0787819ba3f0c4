//! The wire format of a Kafka client: how values and whole requests are
//! written to a byte buffer.
//!
//! Integers are written in big-endian order, a string after its length in
//! two bytes, bytes and arrays after their length in four bytes. A request
//! is framed by the length of what follows, in four bytes.

use bytes::{BufMut, BytesMut};
use vstd::prelude::*;
use vstd::std_specs::convert::FromSpecImpl;
use vstd::utf8::encode_utf8;

verus! {

/// `bytes::BytesMut`, a growable buffer of bytes.
#[verifier::external_type_specification]
#[verifier::external_body]
pub struct ExBytesMut(BytesMut);

/// `std::io::Error`, an error of reading or writing.
#[verifier::external_type_specification]
#[verifier::external_body]
pub struct ExIoError(std::io::Error);

/// The bytes that a buffer holds, first to last.
pub uninterp spec fn buffer_bytes(buf: BytesMut) -> Seq<u8>;

/// 256 to the power of `width`: how many values `width` bytes can take.
pub open spec fn modulus(width: nat) -> nat
    decreases width,
{
    if width == 0 {
        1
    } else {
        256 * modulus((width - 1) as nat)
    }
}

/// The number that stands for `value` in two's complement of `width` bytes.
pub open spec fn unsigned(value: int, width: nat) -> nat {
    if value < 0 {
        (value + modulus(width)) as nat
    } else {
        value as nat
    }
}

/// The `width` low bytes of `value`, most significant first.
pub open spec fn be_bytes(value: nat, width: nat) -> Seq<u8>
    decreases width,
{
    if width == 0 {
        Seq::empty()
    } else {
        be_bytes(value / 256, (width - 1) as nat).push((value % 256) as u8)
    }
}

/// A signed integer in big-endian two's complement of `width` bytes.
pub open spec fn be_signed(value: int, width: nat) -> Seq<u8> {
    be_bytes(unsigned(value, width), width)
}

/// A number written in `width` bytes takes `width` bytes.
pub proof fn lemma_be_len(value: nat, width: nat)
    ensures
        be_bytes(value, width).len() == width,
    decreases width,
{
    if width > 0 {
        lemma_be_len(value / 256, (width - 1) as nat);
    }
}

/// `BytesMut::new`: a buffer that holds nothing.
#[verifier::external_body]
fn new_buffer() -> (buf: BytesMut)
    ensures
        buffer_bytes(buf) == Seq::<u8>::empty(),
{
    BytesMut::new()
}

/// `BytesMut::len`: how many bytes the buffer holds.
#[verifier::external_body]
fn buffer_len(buf: &BytesMut) -> (len: usize)
    ensures
        len == buffer_bytes(*buf).len(),
{
    buf.len()
}

/// `BufMut::put_i8` on a `BytesMut`: appends the byte that stands for `n` in
/// two's complement.
#[verifier::external_body]
fn put_i8(buf: &mut BytesMut, n: i8)
    ensures
        buffer_bytes(*final(buf)) == buffer_bytes(*old(buf)) + be_signed(n as int, 1),
{
    buf.put_i8(n)
}

/// `BufMut::put_i16` on a `BytesMut`: appends `n` in big-endian byte order,
/// two bytes.
#[verifier::external_body]
fn put_i16(buf: &mut BytesMut, n: i16)
    ensures
        buffer_bytes(*final(buf)) == buffer_bytes(*old(buf)) + be_signed(n as int, 2),
{
    buf.put_i16(n)
}

/// `BufMut::put_i32` on a `BytesMut`: appends `n` in big-endian byte order,
/// four bytes.
#[verifier::external_body]
fn put_i32(buf: &mut BytesMut, n: i32)
    ensures
        buffer_bytes(*final(buf)) == buffer_bytes(*old(buf)) + be_signed(n as int, 4),
{
    buf.put_i32(n)
}

/// `BufMut::put_i64` on a `BytesMut`: appends `n` in big-endian byte order,
/// eight bytes.
#[verifier::external_body]
fn put_i64(buf: &mut BytesMut, n: i64)
    ensures
        buffer_bytes(*final(buf)) == buffer_bytes(*old(buf)) + be_signed(n as int, 8),
{
    buf.put_i64(n)
}

/// `BufMut::put_slice` on a `BytesMut`: appends the bytes of `src`.
#[verifier::external_body]
fn put_slice(buf: &mut BytesMut, src: &[u8])
    ensures
        buffer_bytes(*final(buf)) == buffer_bytes(*old(buf)) + src@,
{
    buf.put_slice(src)
}

/// Writing through the index of a `BytesMut` with `copy_from_slice` of the
/// standard library: the bytes from `at` on are replaced by those of `src`,
/// which must lie within the buffer.
#[verifier::external_body]
fn overwrite(buf: &mut BytesMut, at: usize, src: &[u8])
    requires
        at + src@.len() <= buffer_bytes(*old(buf)).len(),
    ensures
        buffer_bytes(*final(buf)) == buffer_bytes(*old(buf)).subrange(0, at as int) + src@
            + buffer_bytes(*old(buf)).subrange(
            at + src@.len(),
            buffer_bytes(*old(buf)).len() as int,
        ),
{
    buf[at..at + src.len()].copy_from_slice(src)
}

/// Why a value cannot be written.
#[derive(Debug)]
pub enum EncodingError {
    Io(std::io::Error),
    StringTooLong,
    BytesTooLong,
    ArrayTooLong,
    MessageTooLong,
    Other(String),
}

/// The kinds of [`EncodingError`] that the wire format itself gives rise to.
#[derive(Clone, Copy, Debug, PartialEq, Eq, Structural)]
pub enum TooLong {
    String,
    Bytes,
    Array,
    Message,
}

impl EncodingError {
    /// The error for a length that the format has no room for.
    pub fn too_long(what: TooLong) -> (e: EncodingError)
        ensures
            e.is_too_long(what),
    {
        match what {
            TooLong::String => EncodingError::StringTooLong,
            TooLong::Bytes => EncodingError::BytesTooLong,
            TooLong::Array => EncodingError::ArrayTooLong,
            TooLong::Message => EncodingError::MessageTooLong,
        }
    }

    /// Whether the error says that `what` is too long.
    pub open spec fn is_too_long(self, what: TooLong) -> bool {
        match what {
            TooLong::String => self is StringTooLong,
            TooLong::Bytes => self is BytesTooLong,
            TooLong::Array => self is ArrayTooLong,
            TooLong::Message => self is MessageTooLong,
        }
    }

    /// The error in words, where the format itself gave rise to it or a
    /// message was handed in.
    pub fn message(&self) -> (text: Option<String>)
        ensures
            match *self {
                EncodingError::Io(_) => text is None,
                EncodingError::BytesTooLong => text matches Some(t) && t@ == "bytes field too long"@,
                EncodingError::StringTooLong => text matches Some(t) && t@ == "string field too long"@,
                EncodingError::ArrayTooLong => text matches Some(t) && t@ == "array field too long"@,
                EncodingError::MessageTooLong => text matches Some(t) && t@ == "message too long"@,
                EncodingError::Other(msg) => text matches Some(t) && t@ == msg@,
            },
    {
        match self {
            EncodingError::Io(_) => None,
            EncodingError::BytesTooLong => Some(String::from_str("bytes field too long")),
            EncodingError::StringTooLong => Some(String::from_str("string field too long")),
            EncodingError::ArrayTooLong => Some(String::from_str("array field too long")),
            EncodingError::MessageTooLong => Some(String::from_str("message too long")),
            EncodingError::Other(msg) => Some(msg.clone()),
        }
    }
}

/// Why a value cannot be read.
#[derive(Debug)]
pub enum DecodingError {
    Io(std::io::Error),
    Other(String),
}

impl DecodingError {
    /// The error in words, where a message was handed in.
    pub fn message(&self) -> (text: Option<String>)
        ensures
            match *self {
                DecodingError::Io(_) => text is None,
                DecodingError::Other(msg) => text matches Some(t) && t@ == msg@,
            },
    {
        match self {
            DecodingError::Io(_) => None,
            DecodingError::Other(msg) => Some(msg.clone()),
        }
    }
}

/// An error of the client: the connection failed, or a value could not be
/// written or read.
#[derive(Debug)]
pub enum ClientError {
    Connection(std::io::Error),
    Encoding(EncodingError),
    Decoding(DecodingError),
}

impl ClientError {
    /// The error of a connection that failed.
    pub fn connection(e: std::io::Error) -> (error: ClientError)
        ensures
            error == ClientError::Connection(e),
    {
        ClientError::Connection(e)
    }

    /// The error in words: those of the error that it holds. Nothing is
    /// known of the words of an error of reading or writing.
    pub fn message(&self) -> (text: String)
        ensures
            match *self {
                ClientError::Encoding(EncodingError::BytesTooLong) => text@ == "bytes field too long"@,
                ClientError::Encoding(EncodingError::StringTooLong) => text@ == "string field too long"@,
                ClientError::Encoding(EncodingError::ArrayTooLong) => text@ == "array field too long"@,
                ClientError::Encoding(EncodingError::MessageTooLong) => text@ == "message too long"@,
                ClientError::Encoding(EncodingError::Other(msg)) => text@ == msg@,
                ClientError::Decoding(DecodingError::Other(msg)) => text@ == msg@,
                _ => true,
            },
    {
        match self {
            ClientError::Connection(e) => e.to_string(),
            ClientError::Encoding(EncodingError::Io(e)) => e.to_string(),
            ClientError::Decoding(DecodingError::Io(e)) => e.to_string(),
            ClientError::Encoding(e) => match e.message() {
                Some(text) => text,
                None => String::new(),
            },
            ClientError::Decoding(e) => match e.message() {
                Some(text) => text,
                None => String::new(),
            },
        }
    }
}

impl FromSpecImpl<EncodingError> for ClientError {
    open spec fn obeys_from_spec() -> bool {
        true
    }

    open spec fn from_spec(e: EncodingError) -> ClientError {
        ClientError::Encoding(e)
    }
}

impl From<EncodingError> for ClientError {
    fn from(e: EncodingError) -> (error: ClientError) {
        ClientError::Encoding(e)
    }
}

impl FromSpecImpl<DecodingError> for ClientError {
    open spec fn obeys_from_spec() -> bool {
        true
    }

    open spec fn from_spec(e: DecodingError) -> ClientError {
        ClientError::Decoding(e)
    }
}

impl From<DecodingError> for ClientError {
    fn from(e: DecodingError) -> (error: ClientError) {
        ClientError::Decoding(e)
    }
}

impl FromSpecImpl<std::io::Error> for EncodingError {
    open spec fn obeys_from_spec() -> bool {
        true
    }

    open spec fn from_spec(e: std::io::Error) -> EncodingError {
        EncodingError::Io(e)
    }
}

impl From<std::io::Error> for EncodingError {
    fn from(e: std::io::Error) -> (error: EncodingError) {
        EncodingError::Io(e)
    }
}

impl FromSpecImpl<std::io::Error> for DecodingError {
    open spec fn obeys_from_spec() -> bool {
        true
    }

    open spec fn from_spec(e: std::io::Error) -> DecodingError {
        DecodingError::Io(e)
    }
}

impl From<std::io::Error> for DecodingError {
    fn from(e: std::io::Error) -> (error: DecodingError) {
        DecodingError::Io(e)
    }
}

/// A value that can be written in the wire format.
pub trait Encode {
    /// What writing the value comes to: the bytes that it is written as, or
    /// the length that the format has no room for.
    spec fn outcome(&self) -> Result<Seq<u8>, TooLong>;

    /// Appends the value to `buf`. Where the value cannot be written, what
    /// was in the buffer is still there, with part of the value behind it.
    fn encode(&self, buf: &mut BytesMut) -> (r: Result<(), EncodingError>)
        ensures
            match self.outcome() {
                Ok(bytes) => r is Ok && buffer_bytes(*final(buf)) == buffer_bytes(*old(buf)) + bytes,
                Err(what) => r matches Err(e) && e.is_too_long(what) && buffer_bytes(
                    *old(buf),
                ).is_prefix_of(buffer_bytes(*final(buf))),
            },
    ;
}

/// A value that can be read from the wire format.
pub trait Decode: Sized {
    /// Reads a value from the front of `buf`.
    fn decode(buf: &mut BytesMut) -> Result<Self, DecodingError>;
}

/// A request: a value that can be written and that is answered by a
/// response of a type of its own.
pub trait Request: Encode {
    type Response;
}

impl Encode for bool {
    open spec fn outcome(&self) -> Result<Seq<u8>, TooLong> {
        Ok(
            be_signed(
                if *self {
                    1
                } else {
                    0
                },
                1,
            ),
        )
    }

    fn encode(&self, buf: &mut BytesMut) -> (r: Result<(), EncodingError>) {
        match self {
            false => put_i8(buf, 0),
            true => put_i8(buf, 1),
        }
        Ok(())
    }
}

impl Encode for i8 {
    open spec fn outcome(&self) -> Result<Seq<u8>, TooLong> {
        Ok(be_signed(*self as int, 1))
    }

    fn encode(&self, buf: &mut BytesMut) -> (r: Result<(), EncodingError>) {
        put_i8(buf, *self);
        Ok(())
    }
}

impl Encode for i16 {
    open spec fn outcome(&self) -> Result<Seq<u8>, TooLong> {
        Ok(be_signed(*self as int, 2))
    }

    fn encode(&self, buf: &mut BytesMut) -> (r: Result<(), EncodingError>) {
        put_i16(buf, *self);
        Ok(())
    }
}

impl Encode for i32 {
    open spec fn outcome(&self) -> Result<Seq<u8>, TooLong> {
        Ok(be_signed(*self as int, 4))
    }

    fn encode(&self, buf: &mut BytesMut) -> (r: Result<(), EncodingError>) {
        put_i32(buf, *self);
        Ok(())
    }
}

impl Encode for i64 {
    open spec fn outcome(&self) -> Result<Seq<u8>, TooLong> {
        Ok(be_signed(*self as int, 8))
    }

    fn encode(&self, buf: &mut BytesMut) -> (r: Result<(), EncodingError>) {
        put_i64(buf, *self);
        Ok(())
    }
}

impl Encode for String {
    open spec fn outcome(&self) -> Result<Seq<u8>, TooLong> {
        if encode_utf8(self@).len() > i16::MAX {
            Err(TooLong::String)
        } else {
            Ok(be_signed(encode_utf8(self@).len() as int, 2) + encode_utf8(self@))
        }
    }

    fn encode(&self, buf: &mut BytesMut) -> (r: Result<(), EncodingError>) {
        let bytes = self.as_str().as_bytes();
        if bytes.len() > i16::MAX as usize {
            assert(buffer_bytes(*buf).is_prefix_of(buffer_bytes(*buf)));
            return Err(EncodingError::too_long(TooLong::String));
        }
        put_i16(buf, bytes.len() as i16);
        put_slice(buf, bytes);
        assert(buffer_bytes(*buf) =~= buffer_bytes(*old(buf)) + (be_signed(bytes@.len() as int, 2)
            + bytes@));
        Ok(())
    }
}

impl Encode for Vec<u8> {
    open spec fn outcome(&self) -> Result<Seq<u8>, TooLong> {
        if self@.len() > i32::MAX {
            Err(TooLong::Bytes)
        } else {
            Ok(be_signed(self@.len() as int, 4) + self@)
        }
    }

    fn encode(&self, buf: &mut BytesMut) -> (r: Result<(), EncodingError>) {
        if self.len() as u64 > i32::MAX as u64 {
            assert(buffer_bytes(*buf).is_prefix_of(buffer_bytes(*buf)));
            return Err(EncodingError::too_long(TooLong::Bytes));
        }
        put_i32(buf, self.len() as i32);
        put_slice(buf, self.as_slice());
        assert(buffer_bytes(*buf) =~= buffer_bytes(*old(buf)) + (be_signed(self@.len() as int, 4)
            + self@));
        Ok(())
    }
}

/// What writing the items one after the other comes to: all their bytes, or
/// what the first item that cannot be written fails with.
pub open spec fn items_outcome<T: Encode>(items: Seq<T>) -> Result<Seq<u8>, TooLong>
    decreases items.len(),
{
    if items.len() == 0 {
        Ok(Seq::empty())
    } else {
        match items_outcome(items.drop_last()) {
            Err(what) => Err(what),
            Ok(bytes) => match items.last().outcome() {
                Err(what) => Err(what),
                Ok(more) => Ok(bytes + more),
            },
        }
    }
}

impl<T> Encode for Vec<T> where T: Encode {
    open spec fn outcome(&self) -> Result<Seq<u8>, TooLong> {
        if self@.len() > i32::MAX {
            Err(TooLong::Array)
        } else {
            match items_outcome(self@) {
                Err(what) => Err(what),
                Ok(bytes) => Ok(be_signed(self@.len() as int, 4) + bytes),
            }
        }
    }

    fn encode(&self, buf: &mut BytesMut) -> (r: Result<(), EncodingError>) {
        if self.len() as u64 > i32::MAX as u64 {
            assert(buffer_bytes(*buf).is_prefix_of(buffer_bytes(*buf)));
            return Err(EncodingError::too_long(TooLong::Array));
        }
        put_i32(buf, self.len() as i32);
        let ghost header = be_signed(self@.len() as int, 4);
        let mut i: usize = 0;
        proof {
            assert(self@.take(0) =~= Seq::<T>::empty());
            assert(buffer_bytes(*buf) =~= buffer_bytes(*old(buf)) + header + Seq::<u8>::empty());
        }
        while i < self.len()
            invariant
                i <= self.len(),
                self@.len() <= i32::MAX,
                header == be_signed(self@.len() as int, 4),
                items_outcome(self@.take(i as int)) matches Ok(bytes) && buffer_bytes(*buf) == buffer_bytes(
                    *old(buf),
                ) + header + bytes,
            decreases self.len() - i,
        {
            let ghost before = buffer_bytes(*buf);
            let ghost so_far = items_outcome(self@.take(i as int))->Ok_0;
            proof {
                assert(self@.take(i + 1).drop_last() =~= self@.take(i as int));
                assert(self@.take(i + 1).last() == self@[i as int]);
            }
            match self[i].encode(buf) {
                Ok(_) => {
                    proof {
                        let more = self@[i as int].outcome()->Ok_0;
                        assert(buffer_bytes(*buf) =~= buffer_bytes(*old(buf)) + header + (so_far + more));
                    }
                },
                Err(e) => {
                    proof {
                        lemma_items_fail(self@, i as int);
                        assert(buffer_bytes(*old(buf)).is_prefix_of(before));
                        assert(before.is_prefix_of(buffer_bytes(*buf)));
                        assert(buffer_bytes(*old(buf)).is_prefix_of(buffer_bytes(*buf)));
                    }
                    return Err(e);
                },
            }
            i += 1;
        }
        proof {
            assert(self@.take(self.len() as int) =~= self@);
            let bytes = items_outcome(self@)->Ok_0;
            assert(buffer_bytes(*buf) =~= buffer_bytes(*old(buf)) + (header + bytes));
        }
        Ok(())
    }
}

/// Where the items up to `at` can be written and the item at `at` cannot,
/// the failure of that item is the failure of the whole.
proof fn lemma_items_fail<T: Encode>(items: Seq<T>, at: int)
    requires
        0 <= at < items.len(),
        items_outcome(items.take(at)) is Ok,
        items[at].outcome() is Err,
    ensures
        items_outcome(items) == Err::<Seq<u8>, TooLong>(items[at].outcome()->Err_0),
    decreases items.len(),
{
    if at == items.len() - 1 {
        assert(items.take(at) =~= items.drop_last());
    } else {
        assert(items.drop_last().take(at) =~= items.take(at));
        lemma_items_fail(items.drop_last(), at);
    }
}

/// A length as the four bytes that stand in front of a message.
fn length_bytes(len: i32) -> (bytes: Vec<u8>)
    requires
        len >= 0,
    ensures
        bytes@ == be_signed(len as int, 4),
{
    let n: u32 = len as u32;
    let mut bytes: Vec<u8> = Vec::new();
    bytes.push((n / 16777216) as u8);
    bytes.push(((n / 65536) % 256) as u8);
    bytes.push(((n / 256) % 256) as u8);
    bytes.push((n % 256) as u8);
    proof {
        reveal_with_fuel(be_bytes, 5);
        assert(bytes@ =~= be_signed(len as int, 4));
    }
    bytes
}

/// The framing of requests and responses.
pub struct Codec;

impl Codec {
    /// What framing a request comes to: the bytes of the request with its
    /// first four bytes replaced by the length of the rest, or the length
    /// that the format has no room for.
    pub open spec fn framed<R: Encode>(request: &R) -> Result<Seq<u8>, TooLong> {
        match request.outcome() {
            Err(what) => Err(what),
            Ok(bytes) => if bytes.len() - 4 > i32::MAX {
                Err(TooLong::Message)
            } else {
                Ok(be_signed(bytes.len() - 4, 4) + bytes.skip(4))
            },
        }
    }

    /// Whether a request leaves no room for its length: it is written as
    /// fewer than four bytes.
    pub open spec fn too_short<R: Encode>(request: &R) -> bool {
        request.outcome() matches Ok(bytes) && bytes.len() < 4
    }

    /// Appends a request to `buf` and writes the length of what follows
    /// the first four bytes into those four bytes. The request must leave
    /// room for them: it is written as four bytes at least.
    pub fn encode<R: Encode>(&mut self, request: &R, buf: &mut BytesMut) -> (r: Result<
        (),
        EncodingError,
    >)
        requires
            !Self::too_short(request),
        ensures
            match Self::framed(request) {
                Ok(bytes) => r is Ok && buffer_bytes(*final(buf)) == buffer_bytes(*old(buf)) + bytes,
                Err(what) => r matches Err(e) && e.is_too_long(what) && buffer_bytes(
                    *old(buf),
                ).is_prefix_of(buffer_bytes(*final(buf))),
            },
    {
        let base = buffer_len(buf);
        match request.encode(buf) {
            Ok(_) => {},
            Err(e) => {
                return Err(e);
            },
        }
        let ghost written = request.outcome()->Ok_0;
        let len = buffer_len(buf) - base - 4;
        if len as u64 > i32::MAX as u64 {
            return Err(EncodingError::too_long(TooLong::Message));
        }
        let header = length_bytes(len as i32);
        proof {
            lemma_be_len(unsigned(len as int, 4), 4);
        }
        overwrite(buf, base, header.as_slice());
        proof {
            assert(buffer_bytes(*buf) =~= buffer_bytes(*old(buf)) + (header@ + written.skip(4)));
        }
        Ok(())
    }

    /// Frames a request in a buffer of its own, where the request leaves
    /// room for its length. A request that is written as fewer than four
    /// bytes is not framed, and nothing is handed back for it.
    pub fn frame<R: Encode>(&mut self, request: &R) -> (r: Option<Result<BytesMut, EncodingError>>)
        ensures
            match r {
                None => Self::too_short(request),
                Some(Ok(buf)) => !Self::too_short(request) && Self::framed(request) == Ok::<
                    Seq<u8>,
                    TooLong,
                >(buffer_bytes(buf)),
                Some(Err(e)) => !Self::too_short(request) && (Self::framed(request) matches Err(what)
                    && e.is_too_long(what)),
            },
    {
        let mut scratch = new_buffer();
        match request.encode(&mut scratch) {
            Ok(_) => {},
            Err(e) => {
                return Some(Err(e));
            },
        }
        if buffer_len(&scratch) < 4 {
            return None;
        }
        let mut buf = new_buffer();
        match self.encode(request, &mut buf) {
            Ok(_) => Some(Ok(buf)),
            Err(e) => Some(Err(e)),
        }
    }
}

/// A message as it goes out on a connection: four bytes that hold the
/// length of the whole, these four bytes counted in, and the request behind
/// them. A request that cannot be written whole goes out as far as it was
/// written.
pub fn frame_message<R: Encode>(request: &R) -> (r: Result<BytesMut, EncodingError>)
    ensures
        match r {
            Ok(buf) => buffer_bytes(buf).len() <= i32::MAX && buffer_bytes(buf).subrange(0, 4)
                == be_signed(buffer_bytes(buf).len() as int, 4) && match request.outcome() {
                Ok(bytes) => buffer_bytes(buf).skip(4) == bytes,
                Err(_) => true,
            },
            Err(e) => e.is_too_long(TooLong::Message),
        },
        request.outcome() matches Ok(bytes) ==> (r is Ok <==> bytes.len() + 4 <= i32::MAX),
{
    let mut buf = new_buffer();
    put_i32(&mut buf, 0);
    let ghost header = buffer_bytes(buf);
    let _ = request.encode(&mut buf);
    let len = buffer_len(&buf);
    proof {
        reveal_with_fuel(be_bytes, 5);
        assert(header.len() == 4);
        assert(header.is_prefix_of(buffer_bytes(buf)));
    }
    if len as u64 > i32::MAX as u64 {
        return Err(EncodingError::too_long(TooLong::Message));
    }
    let ghost before = buffer_bytes(buf);
    let length = length_bytes(len as i32);
    proof {
        lemma_be_len(unsigned(len as int, 4), 4);
    }
    overwrite(&mut buf, 0, length.as_slice());
    proof {
        assert(buffer_bytes(buf).subrange(0, 4) =~= length@);
        assert(buffer_bytes(buf).skip(4) =~= before.skip(4));
        if request.outcome() is Ok {
            assert(before.skip(4) =~= request.outcome()->Ok_0);
        }
    }
    Ok(buf)
}

} // verus!
