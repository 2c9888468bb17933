use vstd::prelude::*;
use vstd::slice::slice_subrange;
use vstd::string::StringExecFns;
use vstd::utf8::{decode_utf8, encode_utf8, valid_utf8};
use crate::error::{ProxyError, ProxyErrorView};

verus! {

/// The bytes of a TLS record before its payload: content type, two bytes of
/// version, two bytes of length.
pub const RECORD_HEADER_LEN: usize = 5;

/// The longest payload that a TLS record may declare.
pub const MAX_RECORD_PAYLOAD: usize = 16384;

/// The ClientHello must be found within this many bytes of the stream: what
/// one record of the longest payload takes. No more is ever waited for.
pub const SNIFF_LIMIT: usize = 16389;

/// The content type of a handshake record.
pub const CONTENT_HANDSHAKE: u8 = 22;

/// The major version that every TLS record carries.
pub const RECORD_VERSION_MAJOR: u8 = 3;

/// The handshake type of a ClientHello.
pub const HANDSHAKE_CLIENT_HELLO: u8 = 1;

/// The bytes of a ClientHello before its session id: two of version and
/// thirty-two of random.
pub const HELLO_FIXED_LEN: usize = 34;

/// The number that two bytes spell, the more significant first.
pub open spec fn be16(hi: u8, lo: u8) -> int {
    hi as int * 256 + lo as int
}

/// The number that three bytes spell, the most significant first.
pub open spec fn be24(hi: u8, mid: u8, lo: u8) -> int {
    hi as int * 65536 + mid as int * 256 + lo as int
}

/// Where the vector that starts at `at` with one byte of length ends, if it
/// lies within `b`.
pub open spec fn end_of_vec8(b: Seq<u8>, at: int) -> Option<int> {
    if 0 <= at < b.len() && at + 1 + b[at] as int <= b.len() {
        Some(at + 1 + b[at] as int)
    } else {
        None
    }
}

/// Where the vector that starts at `at` with two bytes of length ends, if it
/// lies within `b`.
pub open spec fn end_of_vec16(b: Seq<u8>, at: int) -> Option<int> {
    if 0 <= at && at + 2 <= b.len() && at + 2 + be16(b[at], b[at + 1]) <= b.len() {
        Some(at + 2 + be16(b[at], b[at + 1]))
    } else {
        None
    }
}

/// The data of the first server-name extension (type 0) in a run of
/// extensions, each made of two bytes of type, two of length and its data.
/// A run that ends without one gives `MissingSNI`; one that breaks off inside
/// an extension before that gives `ParseError`.
pub open spec fn server_name_extension(exts: Seq<u8>) -> Result<Seq<u8>, ProxyErrorView>
    decreases exts.len(),
{
    if exts.len() == 0 {
        Err(ProxyErrorView::MissingSNI)
    } else if exts.len() < 4 || 4 + be16(exts[2], exts[3]) > exts.len() {
        Err(ProxyErrorView::ParseError)
    } else if be16(exts[0], exts[1]) == 0 {
        Ok(exts.subrange(4, 4 + be16(exts[2], exts[3])))
    } else {
        server_name_extension(exts.subrange(4 + be16(exts[2], exts[3]), exts.len() as int))
    }
}

/// The name of the first host-name entry (type 0) in a run of server-name
/// entries, each made of one byte of type, two of length and the name. A run
/// that ends without one gives `MissingHostName`; one that breaks off inside
/// an entry, or whose host name is empty, gives `ParseError`.
pub open spec fn first_host_name(names: Seq<u8>) -> Result<Seq<u8>, ProxyErrorView>
    decreases names.len(),
{
    if names.len() == 0 {
        Err(ProxyErrorView::MissingHostName)
    } else if names.len() < 3 || 3 + be16(names[1], names[2]) > names.len() {
        Err(ProxyErrorView::ParseError)
    } else if names[0] == 0 {
        if be16(names[1], names[2]) == 0 {
            Err(ProxyErrorView::ParseError)
        } else {
            Ok(names.subrange(3, 3 + be16(names[1], names[2])))
        }
    } else {
        first_host_name(names.subrange(3 + be16(names[1], names[2]), names.len() as int))
    }
}

/// The host name in the data of a server-name extension: a list of entries
/// behind two bytes that give the list's length, which must be all that
/// follows them.
pub open spec fn host_name_of_extension(data: Seq<u8>) -> Result<Seq<u8>, ProxyErrorView> {
    if data.len() < 2 || 2 + be16(data[0], data[1]) != data.len() {
        Err(ProxyErrorView::ParseError)
    } else {
        first_host_name(data.subrange(2, data.len() as int))
    }
}

/// The run of extensions in the body of a ClientHello. The body is the
/// version and random, the session id, the cipher suites, the compression
/// methods, and then the extensions behind two bytes of length, which must
/// reach the body's end. A body that ends behind the compression methods
/// gives `NoExtensions`; any other that does not have this shape gives
/// `ParseError`.
pub open spec fn hello_extensions(body: Seq<u8>) -> Result<Seq<u8>, ProxyErrorView> {
    match end_of_vec8(body, HELLO_FIXED_LEN as int) {
        None => Err(ProxyErrorView::ParseError),
        Some(suites) => match end_of_vec16(body, suites) {
            None => Err(ProxyErrorView::ParseError),
            Some(compressions) => match end_of_vec8(body, compressions) {
                None => Err(ProxyErrorView::ParseError),
                Some(extensions) => if extensions == body.len() {
                    Err(ProxyErrorView::NoExtensions)
                } else {
                    match end_of_vec16(body, extensions) {
                        Some(end) if end == body.len() => Ok(body.subrange(extensions + 2, end)),
                        _ => Err(ProxyErrorView::ParseError),
                    }
                },
            },
        },
    }
}

/// The bytes of the host name that the body of a ClientHello asks for.
pub open spec fn hello_host_name(body: Seq<u8>) -> Result<Seq<u8>, ProxyErrorView> {
    match hello_extensions(body) {
        Err(e) => Err(e),
        Ok(exts) => match server_name_extension(exts) {
            Err(e) => Err(e),
            Ok(data) => host_name_of_extension(data),
        },
    }
}

/// The bytes of the host name that a handshake message asks for. The
/// message must start with a handshake header of type ClientHello, else
/// `NotClientHello`, and hold the whole body that the header announces, else
/// `ParseError`.
pub open spec fn message_host_name(message: Seq<u8>) -> Result<Seq<u8>, ProxyErrorView> {
    if message.len() < 4 || message[0] != HANDSHAKE_CLIENT_HELLO {
        Err(ProxyErrorView::NotClientHello)
    } else if 4 + be24(message[1], message[2], message[3]) > message.len() {
        Err(ProxyErrorView::ParseError)
    } else {
        hello_host_name(message.subrange(4, 4 + be24(message[1], message[2], message[3])))
    }
}

/// What the first bytes of a connection tell about the host it is meant for.
pub enum Sniffed {
    /// Nothing yet: the ClientHello has not arrived whole.
    Incomplete,
    /// The host name that the ClientHello asks for.
    Hostname(Seq<char>),
    /// The bytes are no ClientHello that names a host.
    Failed(ProxyErrorView),
}

/// What a handshake message tells.
pub open spec fn sniffed_message(message: Seq<u8>) -> Sniffed {
    match message_host_name(message) {
        Err(e) => Sniffed::Failed(e),
        Ok(name) => if valid_utf8(name) {
            Sniffed::Hostname(decode_utf8(name))
        } else {
            Sniffed::Failed(ProxyErrorView::InvalidHostnameEncoding)
        },
    }
}

/// What the records of a stream yield of its first handshake message.
pub enum Gathered {
    /// Nothing yet: a record that is needed has not arrived whole.
    Incomplete,
    /// The message, header and body.
    Message(Seq<u8>),
    /// The records do not carry a ClientHello that can be waited for.
    Failed(ProxyErrorView),
}

/// The length that a handshake message announces for itself in its header,
/// the header counted in.
pub open spec fn announced_len(got: Seq<u8>) -> int {
    4 + be24(got[1], got[2], got[3])
}

/// The first handshake message of a stream, `got` being the handshake bytes
/// of the records before position `at`. A message may continue from one
/// record into the next: the payloads are joined until the length that the
/// message announces is there.
///
/// A first handshake byte that is not the ClientHello type gives
/// `NotClientHello`. Each record must be a handshake record of the TLS major
/// version whose length is neither zero nor more than `MAX_RECORD_PAYLOAD`,
/// else `ParseError`; these are judged once the record's header is there in
/// full, not before. A record that would end behind `SNIFF_LIMIT` gives
/// `IncompleteHandshake`: the message is not waited for. Until the record
/// that is needed next is there in full, the answer is `Incomplete`.
pub open spec fn gathered(stream: Seq<u8>, at: int, got: Seq<u8>) -> Gathered
    decreases stream.len() - at,
{
    if got.len() >= 1 && got[0] != HANDSHAKE_CLIENT_HELLO {
        Gathered::Failed(ProxyErrorView::NotClientHello)
    } else if got.len() >= 4 && got.len() >= announced_len(got) {
        Gathered::Message(got.subrange(0, announced_len(got)))
    } else if at + RECORD_HEADER_LEN > SNIFF_LIMIT {
        Gathered::Failed(ProxyErrorView::IncompleteHandshake)
    } else if stream.len() < at + RECORD_HEADER_LEN {
        Gathered::Incomplete
    } else if stream[at] != CONTENT_HANDSHAKE || stream[at + 1] != RECORD_VERSION_MAJOR {
        Gathered::Failed(ProxyErrorView::ParseError)
    } else {
        let n = be16(stream[at + 3], stream[at + 4]);
        let end = at + RECORD_HEADER_LEN + n;
        if n == 0 || n > MAX_RECORD_PAYLOAD {
            Gathered::Failed(ProxyErrorView::ParseError)
        } else if end > SNIFF_LIMIT {
            Gathered::Failed(ProxyErrorView::IncompleteHandshake)
        } else if stream.len() < end {
            Gathered::Incomplete
        } else {
            gathered(stream, end, got + stream.subrange(at + RECORD_HEADER_LEN, end))
        }
    }
}

/// What the bytes read so far from a connection tell: nothing while the
/// first handshake message is not there in full, and then what that message
/// tells, whatever follows it.
pub open spec fn sniffed(stream: Seq<u8>) -> Sniffed {
    match gathered(stream, 0, Seq::empty()) {
        Gathered::Incomplete => Sniffed::Incomplete,
        Gathered::Failed(e) => Sniffed::Failed(e),
        Gathered::Message(message) => sniffed_message(message),
    }
}

/// What `sniff` found in the bytes it was given.
#[derive(Debug, PartialEq, Eq)]
pub enum SniffStep {
    /// The ClientHello is not there in full: read on.
    NeedMore,
    /// The host name that the ClientHello asks for.
    Done(String),
    /// The bytes are no ClientHello that names a host.
    Failed(ProxyError),
}

impl View for SniffStep {
    type V = Sniffed;

    open spec fn view(&self) -> Sniffed {
        match *self {
            SniffStep::NeedMore => Sniffed::Incomplete,
            SniffStep::Done(name) => Sniffed::Hostname(name@),
            SniffStep::Failed(e) => Sniffed::Failed(e@),
        }
    }
}

/// Whether a result of parsing is the one that the grammar names.
pub open spec fn agrees(
    got: Result<&[u8], ProxyError>,
    want: Result<Seq<u8>, ProxyErrorView>,
) -> bool {
    match (got, want) {
        (Ok(g), Ok(w)) => g@ == w,
        (Err(g), Err(w)) => g@ == w,
        _ => false,
    }
}

fn read_be16(hi: u8, lo: u8) -> (n: usize)
    ensures
        n == be16(hi, lo),
        n <= 65535,
{
    (hi as usize) * 256 + (lo as usize)
}

fn read_be24(hi: u8, mid: u8, lo: u8) -> (n: usize)
    ensures
        n == be24(hi, mid, lo),
        n <= 16777215,
{
    (hi as usize) * 65536 + (mid as usize) * 256 + (lo as usize)
}

fn vec8_end(b: &[u8], at: usize) -> (end: Option<usize>)
    ensures
        match end {
            Some(e) => end_of_vec8(b@, at as int) == Some(e as int) && e <= b@.len(),
            None => end_of_vec8(b@, at as int) is None,
        },
{
    if at < b.len() {
        let n: usize = b[at] as usize;
        if n <= b.len() - at - 1 {
            return Some(at + 1 + n);
        }
    }
    None
}

fn vec16_end(b: &[u8], at: usize) -> (end: Option<usize>)
    ensures
        match end {
            Some(e) => end_of_vec16(b@, at as int) == Some(e as int) && at + 2 <= e <= b@.len(),
            None => end_of_vec16(b@, at as int) is None,
        },
{
    if at <= b.len() && 2 <= b.len() - at {
        let n: usize = read_be16(b[at], b[at + 1]);
        if n <= b.len() - at - 2 {
            return Some(at + 2 + n);
        }
    }
    None
}

fn find_server_name_extension<'a>(exts: &'a [u8]) -> (found: Result<&'a [u8], ProxyError>)
    ensures
        agrees(found, server_name_extension(exts@)),
{
    let mut rest: &[u8] = exts;
    loop
        invariant
            server_name_extension(rest@) == server_name_extension(exts@),
        decreases rest@.len(),
    {
        if rest.len() == 0 {
            return Err(ProxyError::MissingSNI);
        }
        if rest.len() < 4 {
            return Err(ProxyError::ParseError);
        }
        let n: usize = read_be16(rest[2], rest[3]);
        if n > rest.len() - 4 {
            return Err(ProxyError::ParseError);
        }
        if read_be16(rest[0], rest[1]) == 0 {
            return Ok(slice_subrange(rest, 4, 4 + n));
        }
        rest = slice_subrange(rest, 4 + n, rest.len());
    }
}

fn find_host_name<'a>(names: &'a [u8]) -> (found: Result<&'a [u8], ProxyError>)
    ensures
        agrees(found, first_host_name(names@)),
{
    let mut rest: &[u8] = names;
    loop
        invariant
            first_host_name(rest@) == first_host_name(names@),
        decreases rest@.len(),
    {
        if rest.len() == 0 {
            return Err(ProxyError::MissingHostName);
        }
        if rest.len() < 3 {
            return Err(ProxyError::ParseError);
        }
        let n: usize = read_be16(rest[1], rest[2]);
        if n > rest.len() - 3 {
            return Err(ProxyError::ParseError);
        }
        if rest[0] == 0 {
            if n == 0 {
                return Err(ProxyError::ParseError);
            }
            return Ok(slice_subrange(rest, 3, 3 + n));
        }
        rest = slice_subrange(rest, 3 + n, rest.len());
    }
}

fn extension_host_name<'a>(data: &'a [u8]) -> (found: Result<&'a [u8], ProxyError>)
    ensures
        agrees(found, host_name_of_extension(data@)),
{
    if data.len() < 2 {
        return Err(ProxyError::ParseError);
    }
    if read_be16(data[0], data[1]) != data.len() - 2 {
        return Err(ProxyError::ParseError);
    }
    find_host_name(slice_subrange(data, 2, data.len()))
}

fn find_extensions<'a>(body: &'a [u8]) -> (found: Result<&'a [u8], ProxyError>)
    ensures
        agrees(found, hello_extensions(body@)),
{
    let suites = match vec8_end(body, HELLO_FIXED_LEN) {
        Some(at) => at,
        None => { return Err(ProxyError::ParseError); },
    };
    let compressions = match vec16_end(body, suites) {
        Some(at) => at,
        None => { return Err(ProxyError::ParseError); },
    };
    let extensions = match vec8_end(body, compressions) {
        Some(at) => at,
        None => { return Err(ProxyError::ParseError); },
    };
    if extensions == body.len() {
        return Err(ProxyError::NoExtensions);
    }
    match vec16_end(body, extensions) {
        Some(end) => {
            if end == body.len() {
                Ok(slice_subrange(body, extensions + 2, end))
            } else {
                Err(ProxyError::ParseError)
            }
        },
        None => Err(ProxyError::ParseError),
    }
}

fn find_hello_host_name<'a>(body: &'a [u8]) -> (found: Result<&'a [u8], ProxyError>)
    ensures
        agrees(found, hello_host_name(body@)),
{
    let exts = match find_extensions(body) {
        Ok(exts) => exts,
        Err(e) => { return Err(e); },
    };
    let data = match find_server_name_extension(exts) {
        Ok(data) => data,
        Err(e) => { return Err(e); },
    };
    extension_host_name(data)
}

fn find_message_host_name<'a>(payload: &'a [u8]) -> (found: Result<&'a [u8], ProxyError>)
    ensures
        agrees(found, message_host_name(payload@)),
{
    if payload.len() < 4 || payload[0] != HANDSHAKE_CLIENT_HELLO {
        return Err(ProxyError::NotClientHello);
    }
    let n: usize = read_be24(payload[1], payload[2], payload[3]);
    if n > payload.len() - 4 {
        return Err(ProxyError::ParseError);
    }
    find_hello_host_name(slice_subrange(payload, 4, 4 + n))
}

/// Reads `bytes` as text with `std::str::from_utf8`, which accepts exactly
/// the valid UTF-8 sequences and hands back the same bytes as a string slice.
#[verifier::external_body]
fn utf8_text<'a>(bytes: &'a [u8]) -> (text: Option<&'a str>)
    ensures
        text is Some <==> valid_utf8(bytes@),
        text is Some ==> encode_utf8(text.unwrap()@) == bytes@,
{
    match std::str::from_utf8(bytes) {
        Ok(text) => Some(text),
        Err(_) => None,
    }
}

/// Whether what was gathered is what the records yield.
pub open spec fn gathers(got: Result<Option<Vec<u8>>, ProxyError>, want: Gathered) -> bool {
    match got {
        Ok(None) => want is Incomplete,
        Ok(Some(message)) => want == Gathered::Message(message@),
        Err(e) => want == Gathered::Failed(e@),
    }
}

fn gather(stream: &[u8]) -> (got: Result<Option<Vec<u8>>, ProxyError>)
    ensures
        gathers(got, gathered(stream@, 0, Seq::empty())),
{
    let mut at: usize = 0;
    let mut got: Vec<u8> = Vec::new();
    loop
        invariant
            at <= stream@.len(),
            got@.len() <= at,
            gathered(stream@, at as int, got@) == gathered(stream@, 0, Seq::empty()),
        decreases stream@.len() - at,
    {
        if got.len() >= 1 && got[0] != HANDSHAKE_CLIENT_HELLO {
            return Err(ProxyError::NotClientHello);
        }
        if got.len() >= 4 {
            let need: usize = 4 + read_be24(got[1], got[2], got[3]);
            if got.len() >= need {
                got.truncate(need);
                return Ok(Some(got));
            }
        }
        if at > SNIFF_LIMIT - RECORD_HEADER_LEN {
            return Err(ProxyError::IncompleteHandshake);
        }
        if stream.len() - at < RECORD_HEADER_LEN {
            return Ok(None);
        }
        if stream[at] != CONTENT_HANDSHAKE || stream[at + 1] != RECORD_VERSION_MAJOR {
            return Err(ProxyError::ParseError);
        }
        let n: usize = read_be16(stream[at + 3], stream[at + 4]);
        if n == 0 || n > MAX_RECORD_PAYLOAD {
            return Err(ProxyError::ParseError);
        }
        let end: usize = at + RECORD_HEADER_LEN + n;
        if end > SNIFF_LIMIT {
            return Err(ProxyError::IncompleteHandshake);
        }
        if stream.len() < end {
            return Ok(None);
        }
        proof {
            assert(gathered(stream@, at as int, got@) == gathered(
                stream@,
                end as int,
                got@ + stream@.subrange(at + RECORD_HEADER_LEN, end as int),
            ));
        }
        let ghost before = got@;
        let payload = slice_subrange(stream, at + RECORD_HEADER_LEN, end);
        got.extend_from_slice(payload);
        assert(got@ =~= before + payload@);
        at = end;
    }
}

fn name_in_message(message: &[u8]) -> (step: SniffStep)
    ensures
        step@ == sniffed_message(message@),
{
    match find_message_host_name(message) {
        Err(e) => SniffStep::Failed(e),
        Ok(name) => match utf8_text(name) {
            None => SniffStep::Failed(ProxyError::InvalidHostnameEncoding),
            Some(text) => {
                proof {
                    vstd::utf8::encode_utf8_decode_utf8(text@);
                }
                SniffStep::Done(String::from_str(text))
            },
        },
    }
}

/// Looks for the host name in the bytes read so far from a connection.
pub fn sniff(stream: &[u8]) -> (step: SniffStep)
    ensures
        step@ == sniffed(stream@),
{
    match gather(stream) {
        Ok(None) => SniffStep::NeedMore,
        Err(e) => SniffStep::Failed(e),
        Ok(Some(message)) => name_in_message(message.as_slice()),
    }
}

/// Once the records read yield a message or a failure, no byte that follows
/// changes that.
pub proof fn lemma_gathered_settles(stream: Seq<u8>, more: Seq<u8>, at: int, got: Seq<u8>)
    requires
        0 <= at,
        !(gathered(stream, at, got) is Incomplete),
    ensures
        gathered(stream + more, at, got) == gathered(stream, at, got),
    decreases stream.len() - at,
{
    let longer = stream + more;
    assert(forall|i: int| 0 <= i < stream.len() ==> longer[i] == stream[i]);
    if !(got.len() >= 1 && got[0] != HANDSHAKE_CLIENT_HELLO) && !(got.len() >= 4 && got.len()
        >= announced_len(got)) && at + RECORD_HEADER_LEN <= SNIFF_LIMIT {
        assert(stream.len() >= at + RECORD_HEADER_LEN);
        if stream[at] == CONTENT_HANDSHAKE && stream[at + 1] == RECORD_VERSION_MAJOR {
            let n = be16(stream[at + 3], stream[at + 4]);
            let end = at + RECORD_HEADER_LEN + n;
            if 0 < n <= MAX_RECORD_PAYLOAD && end <= SNIFF_LIMIT {
                assert(stream.len() >= end);
                assert(longer.subrange(at + RECORD_HEADER_LEN, end) =~= stream.subrange(
                    at + RECORD_HEADER_LEN,
                    end,
                ));
                lemma_gathered_settles(
                    stream,
                    more,
                    end,
                    got + stream.subrange(at + RECORD_HEADER_LEN, end),
                );
            }
        }
    }
}

/// While a record is waited for, fewer than `SNIFF_LIMIT` bytes have been
/// read.
pub proof fn lemma_gathering_is_bounded(stream: Seq<u8>, at: int, got: Seq<u8>)
    requires
        0 <= at,
        gathered(stream, at, got) is Incomplete,
    ensures
        stream.len() < SNIFF_LIMIT,
    decreases stream.len() - at,
{
    if !(got.len() >= 1 && got[0] != HANDSHAKE_CLIENT_HELLO) && !(got.len() >= 4 && got.len()
        >= announced_len(got)) && at + RECORD_HEADER_LEN <= SNIFF_LIMIT && stream.len() >= at
        + RECORD_HEADER_LEN {
        let n = be16(stream[at + 3], stream[at + 4]);
        let end = at + RECORD_HEADER_LEN + n;
        if stream.len() >= end {
            lemma_gathering_is_bounded(
                stream,
                end,
                got + stream.subrange(at + RECORD_HEADER_LEN, end),
            );
        }
    }
}

/// Once the bytes read tell a host name or a failure, no byte that follows
/// changes the answer: it depends on the stream alone, not on where the reads
/// happened to end.
pub proof fn lemma_sniffed_settles(stream: Seq<u8>, more: Seq<u8>)
    requires
        !(sniffed(stream) is Incomplete),
    ensures
        sniffed(stream + more) == sniffed(stream),
{
    lemma_gathered_settles(stream, more, 0, Seq::empty());
}

/// While the answer is still open, fewer than `SNIFF_LIMIT` bytes have been
/// read: what must be kept while waiting is bounded.
pub proof fn lemma_incomplete_is_bounded(stream: Seq<u8>)
    requires
        sniffed(stream) is Incomplete,
    ensures
        stream.len() < SNIFF_LIMIT,
{
    lemma_gathering_is_bounded(stream, 0, Seq::empty());
}

/// Nothing is judged before a whole record header is there: fewer bytes than
/// that tell nothing, whatever they are.
pub proof fn lemma_short_stream_is_incomplete(stream: Seq<u8>)
    requires
        stream.len() < RECORD_HEADER_LEN,
    ensures
        sniffed(stream) is Incomplete,
{
}

/// A stream that is still incomplete was incomplete at every earlier point.
pub proof fn lemma_incomplete_before(stream: Seq<u8>, more: Seq<u8>)
    requires
        sniffed(stream + more) is Incomplete,
    ensures
        sniffed(stream) is Incomplete,
{
    if !(sniffed(stream) is Incomplete) {
        lemma_sniffed_settles(stream, more);
    }
}

/// The bytes of the first `n` reads, in the order in which they came.
pub open spec fn joined(reads: Seq<Vec<u8>>, n: int) -> Seq<u8>
    decreases n,
{
    if n <= 0 {
        Seq::empty()
    } else {
        joined(reads, n - 1) + reads[n - 1]@
    }
}

/// How many of `reads` are taken, `done` of them being taken already: reading
/// stops with the first read that settles the answer, or when none is left.
pub open spec fn reads_taken(reads: Seq<Vec<u8>>, done: int) -> int
    decreases reads.len() - done,
{
    if done >= reads.len() || !(sniffed(joined(reads, done)) is Incomplete) {
        done
    } else {
        reads_taken(reads, done + 1)
    }
}

/// What a connection whose reads were `reads`, and which then ended, yields:
/// the host name with every byte that was read to find it, or the failure.
/// A stream that ends while the answer is open fails with
/// `IncompleteHandshake`.
pub open spec fn parsed_sni(reads: Seq<Vec<u8>>) -> Result<(Seq<char>, Seq<u8>), ProxyErrorView> {
    let prefix = joined(reads, reads_taken(reads, 0));
    match sniffed(prefix) {
        Sniffed::Incomplete => Err(ProxyErrorView::IncompleteHandshake),
        Sniffed::Hostname(name) => Ok((name, prefix)),
        Sniffed::Failed(e) => Err(e),
    }
}

/// What a stream as a whole yields, whatever the reads it came in: the host
/// name, or the failure.
pub open spec fn stream_outcome(stream: Seq<u8>) -> Result<Seq<char>, ProxyErrorView> {
    match sniffed(stream) {
        Sniffed::Incomplete => Err(ProxyErrorView::IncompleteHandshake),
        Sniffed::Hostname(name) => Ok(name),
        Sniffed::Failed(e) => Err(e),
    }
}

/// The bytes of the first `n` reads are the start of the bytes of any `m >= n`
/// reads.
pub proof fn lemma_joined_extends(reads: Seq<Vec<u8>>, n: int, m: int) -> (rest: Seq<u8>)
    requires
        0 <= n <= m,
    ensures
        joined(reads, m) == joined(reads, n) + rest,
    decreases m - n,
{
    if n == m {
        assert(joined(reads, n) + Seq::<u8>::empty() =~= joined(reads, n));
        Seq::empty()
    } else {
        let shorter = lemma_joined_extends(reads, n, m - 1);
        let rest = shorter + reads[m - 1]@;
        assert(joined(reads, m) =~= joined(reads, n) + rest);
        rest
    }
}

/// Where reading stops, and what is then known.
pub proof fn lemma_reads_taken(reads: Seq<Vec<u8>>, done: int)
    requires
        0 <= done <= reads.len(),
    ensures
        done <= reads_taken(reads, done) <= reads.len(),
        sniffed(joined(reads, reads_taken(reads, done))) is Incomplete ==> reads_taken(reads, done)
            == reads.len(),
        forall|k: int|
            done <= k < reads_taken(reads, done) ==> sniffed(#[trigger] joined(reads, k))
                is Incomplete,
    decreases reads.len() - done,
{
    if !(done >= reads.len() || !(sniffed(joined(reads, done)) is Incomplete)) {
        lemma_reads_taken(reads, done + 1);
    }
}

/// How a stream was cut into reads does not matter to what is found in it:
/// the host name, or the failure, is that of the stream as a whole, and the
/// bytes handed back with a host name are the stream's own first bytes, up to
/// the end of the read that completed the ClientHello.
pub proof fn lemma_chunking_is_immaterial(reads: Seq<Vec<u8>>)
    ensures
        match parsed_sni(reads) {
            Ok((name, prefix)) => stream_outcome(joined(reads, reads.len() as int)) == Ok::<
                Seq<char>,
                ProxyErrorView,
            >(name) && prefix == joined(reads, reads_taken(reads, 0)) && exists|rest: Seq<u8>|
                joined(reads, reads.len() as int) == prefix + rest,
            Err(e) => stream_outcome(joined(reads, reads.len() as int)) == Err::<
                Seq<char>,
                ProxyErrorView,
            >(e),
        },
{
    let k = reads_taken(reads, 0);
    lemma_reads_taken(reads, 0);
    let rest = lemma_joined_extends(reads, k, reads.len() as int);
    if !(sniffed(joined(reads, k)) is Incomplete) {
        lemma_sniffed_settles(joined(reads, k), rest);
    }
}

/// Two ways of cutting one stream into reads find the same host name in it,
/// or fail alike.
pub proof fn lemma_same_stream_same_name(a: Seq<Vec<u8>>, b: Seq<Vec<u8>>)
    requires
        joined(a, a.len() as int) == joined(b, b.len() as int),
    ensures
        match (parsed_sni(a), parsed_sni(b)) {
            (Ok((x, _)), Ok((y, _))) => x == y,
            (Err(e), Err(f)) => e == f,
            _ => false,
        },
{
    lemma_chunking_is_immaterial(a);
    lemma_chunking_is_immaterial(b);
}

/// Reads that hold the same bytes, one by one, are joined to the same bytes.
pub proof fn lemma_same_reads_same_bytes(a: Seq<Vec<u8>>, b: Seq<Vec<u8>>, n: int)
    requires
        a.len() == b.len(),
        n <= a.len(),
        forall|i: int| 0 <= i < a.len() ==> (#[trigger] a[i])@ == b[i]@,
    ensures
        joined(a, n) == joined(b, n),
    decreases n,
{
    if n > 0 {
        lemma_same_reads_same_bytes(a, b, n - 1);
        assert(a[n - 1]@ == b[n - 1]@);
    }
}

proof fn lemma_same_reads_same_count(a: Seq<Vec<u8>>, b: Seq<Vec<u8>>, done: int)
    requires
        a.len() == b.len(),
        0 <= done <= a.len(),
        forall|i: int| 0 <= i < a.len() ==> (#[trigger] a[i])@ == b[i]@,
    ensures
        reads_taken(a, done) == reads_taken(b, done),
    decreases a.len() - done,
{
    lemma_same_reads_same_bytes(a, b, done);
    if !(done >= a.len() || !(sniffed(joined(a, done)) is Incomplete)) {
        lemma_same_reads_same_count(a, b, done + 1);
    }
}

/// Running twice over the same bytes, read by read, gives the same host name
/// with the same bytes beside it, or the same failure: nothing but the bytes
/// read enters into the result.
pub proof fn lemma_same_reads_same_result(a: Seq<Vec<u8>>, b: Seq<Vec<u8>>)
    requires
        a.len() == b.len(),
        forall|i: int| 0 <= i < a.len() ==> (#[trigger] a[i])@ == b[i]@,
    ensures
        parsed_sni(a) == parsed_sni(b),
{
    lemma_same_reads_same_count(a, b, 0);
    lemma_reads_taken(a, 0);
    lemma_same_reads_same_bytes(a, b, reads_taken(a, 0));
}

/// The bytes read so far from one connection, kept as they came so that they
/// can be sent on once the host is known.
#[derive(Debug, PartialEq, Eq)]
pub struct Sniffer {
    seen: Vec<u8>,
}

impl View for Sniffer {
    type V = Seq<u8>;

    closed spec fn view(&self) -> Seq<u8> {
        self.seen@
    }
}

impl Sniffer {
    /// Starts with nothing read.
    pub fn new() -> (fresh: Sniffer)
        ensures
            fresh@ == Seq::<u8>::empty(),
    {
        Sniffer { seen: Vec::with_capacity(4096) }
    }

    /// Takes in what one read returned and says what is known now. Every
    /// byte is kept, wherever the ClientHello ends.
    pub fn feed(&mut self, chunk: &[u8]) -> (step: SniffStep)
        ensures
            final(self)@ == old(self)@ + chunk@,
            step@ == sniffed(final(self)@),
    {
        self.seen.extend_from_slice(chunk);
        sniff(self.seen.as_slice())
    }

    /// The bytes read so far.
    pub fn seen(&self) -> (bytes: &[u8])
        ensures
            bytes@ == self@,
    {
        self.seen.as_slice()
    }

    /// Gives up the bytes read, for sending on.
    pub fn into_prefix(self) -> (prefix: Vec<u8>)
        ensures
            prefix@ == self@,
    {
        self.seen
    }
}

/// Finds the host name that a connection asks for, where `reads` holds what
/// each read of the connection returned, in order, until it ended. Reads are
/// taken one by one until the answer is in; the bytes of all reads taken come
/// back with the name.
pub fn parse_sni(reads: &[Vec<u8>]) -> (found: Result<(String, Vec<u8>), ProxyError>)
    ensures
        match (found, parsed_sni(reads@)) {
            (Ok((name, prefix)), Ok((n, p))) => name@ == n && prefix@ == p,
            (Err(e), Err(f)) => e@ == f,
            _ => false,
        },
{
    let mut sniffer = Sniffer::new();
    let mut i: usize = 0;
    while i < reads.len()
        invariant
            i <= reads@.len(),
            sniffer@ == joined(reads@, i as int),
            sniffed(sniffer@) is Incomplete,
            reads_taken(reads@, 0) == reads_taken(reads@, i as int),
        decreases reads@.len() - i,
    {
        proof {
            assert(reads_taken(reads@, i as int) == reads_taken(reads@, i + 1));
            assert(joined(reads@, i + 1) == joined(reads@, i as int) + reads@[i as int]@);
        }
        let step = sniffer.feed(reads[i].as_slice());
        i += 1;
        proof {
            if !(step@ is Incomplete) {
                assert(reads_taken(reads@, i as int) == i);
            }
        }
        match step {
            SniffStep::NeedMore => {},
            SniffStep::Done(name) => {
                return Ok((name, sniffer.into_prefix()));
            },
            SniffStep::Failed(e) => {
                return Err(e);
            },
        }
    }
    Err(ProxyError::IncompleteHandshake)
}

} // verus!
