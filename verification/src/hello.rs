use vstd::prelude::*;
use vstd::utf8::{decode_utf8, encode_utf8, valid_utf8};
use crate::error::ProxyErrorView;
use crate::tls::{
    announced_len, be16, be24, end_of_vec16, end_of_vec8, first_host_name, gathered,
    hello_extensions, hello_host_name, host_name_of_extension, joined,
    lemma_chunking_is_immaterial, message_host_name, parsed_sni, reads_taken,
    server_name_extension, sniffed, sniffed_message, Gathered, Sniffed, CONTENT_HANDSHAKE,
    HANDSHAKE_CLIENT_HELLO, HELLO_FIXED_LEN, MAX_RECORD_PAYLOAD, RECORD_HEADER_LEN,
    RECORD_VERSION_MAJOR, SNIFF_LIMIT,
};

verus! {

/// One extension of a ClientHello: its type and its data.
pub struct Extension {
    pub kind: u16,
    pub data: Seq<u8>,
}

/// One entry of a server-name extension: its name type and the name.
pub struct ServerName {
    pub kind: u8,
    pub name: Seq<u8>,
}

/// A ClientHello as a value. `preamble` is the version and the random;
/// `extensions` is `None` for a hello that ends without an extensions block.
pub struct ClientHello {
    pub preamble: Seq<u8>,
    pub session_id: Seq<u8>,
    pub cipher_suites: Seq<u8>,
    pub compression_methods: Seq<u8>,
    pub extensions: Option<Seq<Extension>>,
}

/// The two bytes that spell `n`, the more significant first.
pub open spec fn u16_bytes(n: int) -> Seq<u8> {
    seq![(n / 256) as u8, (n % 256) as u8]
}

/// The three bytes that spell `n`, the most significant first.
pub open spec fn u24_bytes(n: int) -> Seq<u8> {
    seq![(n / 65536) as u8, ((n / 256) % 256) as u8, (n % 256) as u8]
}

/// An extension on the wire: type, length of the data, data.
pub open spec fn extension_bytes(e: Extension) -> Seq<u8> {
    u16_bytes(e.kind as int) + u16_bytes(e.data.len() as int) + e.data
}

/// A run of extensions on the wire, one after the other.
pub open spec fn extensions_bytes(exts: Seq<Extension>) -> Seq<u8>
    decreases exts.len(),
{
    if exts.len() == 0 {
        Seq::empty()
    } else {
        extension_bytes(exts[0]) + extensions_bytes(exts.drop_first())
    }
}

/// A server-name entry on the wire: name type, length of the name, name.
pub open spec fn server_name_bytes(n: ServerName) -> Seq<u8> {
    seq![n.kind] + u16_bytes(n.name.len() as int) + n.name
}

/// A run of server-name entries on the wire, one after the other.
pub open spec fn server_names_bytes(names: Seq<ServerName>) -> Seq<u8>
    decreases names.len(),
{
    if names.len() == 0 {
        Seq::empty()
    } else {
        server_name_bytes(names[0]) + server_names_bytes(names.drop_first())
    }
}

/// The data of a server-name extension that lists `names`: the entries
/// behind two bytes that give their length.
pub open spec fn server_name_data(names: Seq<ServerName>) -> Seq<u8> {
    u16_bytes(server_names_bytes(names).len() as int) + server_names_bytes(names)
}

/// The body of a ClientHello on the wire.
pub open spec fn hello_bytes(h: ClientHello) -> Seq<u8> {
    h.preamble + seq![h.session_id.len() as u8] + h.session_id + u16_bytes(
        h.cipher_suites.len() as int,
    ) + h.cipher_suites + seq![h.compression_methods.len() as u8] + h.compression_methods + (
    match h.extensions {
        None => Seq::empty(),
        Some(exts) => u16_bytes(extensions_bytes(exts).len() as int) + extensions_bytes(exts),
    })
}

/// A ClientHello as a handshake message: type, length, body.
pub open spec fn handshake_bytes(h: ClientHello) -> Seq<u8> {
    seq![HANDSHAKE_CLIENT_HELLO] + u24_bytes(hello_bytes(h).len() as int) + hello_bytes(h)
}

/// A ClientHello as the one TLS record that carries it, `minor` being the
/// minor version that the record names.
pub open spec fn record_bytes(h: ClientHello, minor: u8) -> Seq<u8> {
    seq![CONTENT_HANDSHAKE, RECORD_VERSION_MAJOR, minor] + u16_bytes(
        handshake_bytes(h).len() as int,
    ) + handshake_bytes(h)
}

/// Whether each extension's data can be announced in two bytes.
pub open spec fn extensions_fit(exts: Seq<Extension>) -> bool {
    forall|i: int| 0 <= i < exts.len() ==> (#[trigger] exts[i]).data.len() <= 65535
}

/// Whether each name can be announced in two bytes.
pub open spec fn names_fit(names: Seq<ServerName>) -> bool {
    forall|i: int| 0 <= i < names.len() ==> (#[trigger] names[i]).name.len() <= 65535
}

impl ClientHello {
    /// Whether the hello can be written as one record: every part has a
    /// length that its length field can hold, and the whole message is no
    /// longer than a record's payload may be.
    pub open spec fn well_formed(self) -> bool {
        &&& self.preamble.len() == HELLO_FIXED_LEN
        &&& self.session_id.len() <= 255
        &&& self.cipher_suites.len() <= 65535
        &&& self.compression_methods.len() <= 255
        &&& match self.extensions {
            None => true,
            Some(exts) => extensions_fit(exts) && extensions_bytes(exts).len() <= 65535,
        }
        &&& handshake_bytes(self).len() <= MAX_RECORD_PAYLOAD
    }
}

/// The data of the first extension of the server-name type, if there is one.
pub open spec fn first_server_name(exts: Seq<Extension>) -> Option<Seq<u8>>
    decreases exts.len(),
{
    if exts.len() == 0 {
        None
    } else if exts[0].kind == 0 {
        Some(exts[0].data)
    } else {
        first_server_name(exts.drop_first())
    }
}

/// The name of the first entry of the host-name type, if there is one.
pub open spec fn first_host(names: Seq<ServerName>) -> Option<Seq<u8>>
    decreases names.len(),
{
    if names.len() == 0 {
        None
    } else if names[0].kind == 0 {
        Some(names[0].name)
    } else {
        first_host(names.drop_first())
    }
}

proof fn lemma_be16_of_u16_bytes(n: int)
    requires
        0 <= n <= 65535,
    ensures
        u16_bytes(n).len() == 2,
        be16(u16_bytes(n)[0], u16_bytes(n)[1]) == n,
{
}

proof fn lemma_be24_of_u24_bytes(n: int)
    requires
        0 <= n <= 16777215,
    ensures
        u24_bytes(n).len() == 3,
        be24(u24_bytes(n)[0], u24_bytes(n)[1], u24_bytes(n)[2]) == n,
{
}

/// The parser finds in a run of extensions on the wire the data of the first
/// server-name extension that was written, and reports `MissingSNI` where
/// none was.
pub proof fn lemma_reads_back_extension(exts: Seq<Extension>)
    requires
        extensions_fit(exts),
    ensures
        server_name_extension(extensions_bytes(exts)) == (match first_server_name(exts) {
            Some(data) => Ok::<Seq<u8>, ProxyErrorView>(data),
            None => Err::<Seq<u8>, ProxyErrorView>(ProxyErrorView::MissingSNI),
        }),
    decreases exts.len(),
{
    if exts.len() > 0 {
        let e = exts[0];
        let rest = exts.drop_first();
        let tail = extensions_bytes(rest);
        let b = extensions_bytes(exts);
        let n = e.data.len() as int;
        lemma_be16_of_u16_bytes(e.kind as int);
        lemma_be16_of_u16_bytes(n);
        assert(b == u16_bytes(e.kind as int) + u16_bytes(n) + e.data + tail);
        assert(b.len() == 4 + n + tail.len());
        assert(b[0] == u16_bytes(e.kind as int)[0]);
        assert(b[1] == u16_bytes(e.kind as int)[1]);
        assert(b[2] == u16_bytes(n)[0]);
        assert(b[3] == u16_bytes(n)[1]);
        assert(b.subrange(4, 4 + n) =~= e.data);
        assert(b.subrange(4 + n, b.len() as int) =~= tail);
        assert forall|i: int| 0 <= i < rest.len() implies (#[trigger] rest[i]).data.len()
            <= 65535 by {
            assert(rest[i] == exts[i + 1]);
        }
        lemma_reads_back_extension(rest);
    }
}

/// The parser finds in a run of server-name entries on the wire the first
/// host name that was written, and reports `MissingHostName` where none was.
/// A host name of no bytes is refused.
pub proof fn lemma_reads_back_host(names: Seq<ServerName>)
    requires
        names_fit(names),
    ensures
        first_host_name(server_names_bytes(names)) == (match first_host(names) {
            Some(name) => if name.len() == 0 {
                Err::<Seq<u8>, ProxyErrorView>(ProxyErrorView::ParseError)
            } else {
                Ok::<Seq<u8>, ProxyErrorView>(name)
            },
            None => Err::<Seq<u8>, ProxyErrorView>(ProxyErrorView::MissingHostName),
        }),
    decreases names.len(),
{
    if names.len() > 0 {
        let e = names[0];
        let rest = names.drop_first();
        let tail = server_names_bytes(rest);
        let b = server_names_bytes(names);
        let n = e.name.len() as int;
        lemma_be16_of_u16_bytes(n);
        assert(b == seq![e.kind] + u16_bytes(n) + e.name + tail);
        assert(b.len() == 3 + n + tail.len());
        assert(b[0] == e.kind);
        assert(b[1] == u16_bytes(n)[0]);
        assert(b[2] == u16_bytes(n)[1]);
        assert(b.subrange(3, 3 + n) =~= e.name);
        assert(b.subrange(3 + n, b.len() as int) =~= tail);
        assert forall|i: int| 0 <= i < rest.len() implies (#[trigger] rest[i]).name.len()
            <= 65535 by {
            assert(rest[i] == names[i + 1]);
        }
        lemma_reads_back_host(rest);
    }
}

/// The parser finds in the data of a server-name extension the first host
/// name of the list that was written.
pub proof fn lemma_reads_back_server_name(names: Seq<ServerName>)
    requires
        names_fit(names),
        server_names_bytes(names).len() <= 65535,
    ensures
        host_name_of_extension(server_name_data(names)) == first_host_name(
            server_names_bytes(names),
        ),
{
    let list = server_names_bytes(names);
    let data = server_name_data(names);
    lemma_be16_of_u16_bytes(list.len() as int);
    assert(data[0] == u16_bytes(list.len() as int)[0]);
    assert(data[1] == u16_bytes(list.len() as int)[1]);
    assert(data.subrange(2, data.len() as int) =~= list);
}

/// The parser finds in the body of a ClientHello the run of extensions that
/// was written, and reports `NoExtensions` for a hello that was written
/// without an extensions block.
pub proof fn lemma_reads_back_extensions_block(h: ClientHello)
    requires
        h.well_formed(),
    ensures
        hello_extensions(hello_bytes(h)) == (match h.extensions {
            Some(exts) => Ok::<Seq<u8>, ProxyErrorView>(extensions_bytes(exts)),
            None => Err::<Seq<u8>, ProxyErrorView>(ProxyErrorView::NoExtensions),
        }),
{
    let body = hello_bytes(h);
    let sid = h.session_id.len() as int;
    let cs = h.cipher_suites.len() as int;
    let cm = h.compression_methods.len() as int;
    let block = match h.extensions {
        None => Seq::<u8>::empty(),
        Some(exts) => u16_bytes(extensions_bytes(exts).len() as int) + extensions_bytes(exts),
    };
    let suites = 35 + sid;
    let compressions = suites + 2 + cs;
    let extensions = compressions + 1 + cm;
    lemma_be16_of_u16_bytes(cs);
    assert(body.len() == extensions + block.len());
    assert(body[34] == sid as u8);
    assert(end_of_vec8(body, 34) == Some(suites));
    assert(body[suites] == u16_bytes(cs)[0]);
    assert(body[suites + 1] == u16_bytes(cs)[1]);
    assert(end_of_vec16(body, suites) == Some(compressions));
    assert(body[compressions] == cm as u8);
    assert(end_of_vec8(body, compressions) == Some(extensions));
    match h.extensions {
        None => {},
        Some(exts) => {
            let eb = extensions_bytes(exts);
            lemma_be16_of_u16_bytes(eb.len() as int);
            assert(body[extensions] == u16_bytes(eb.len() as int)[0]);
            assert(body[extensions + 1] == u16_bytes(eb.len() as int)[1]);
            assert(end_of_vec16(body, extensions) == Some(body.len() as int));
            assert(body.subrange(extensions + 2, body.len() as int) =~= eb);
        },
    }
}

/// What is read from a record that carries a ClientHello, whatever follows
/// the record, is what the body of the hello tells.
pub proof fn lemma_reads_back_record(h: ClientHello, minor: u8, rest: Seq<u8>)
    requires
        h.well_formed(),
    ensures
        sniffed(record_bytes(h, minor) + rest) == (match hello_host_name(hello_bytes(h)) {
            Err(e) => Sniffed::Failed(e),
            Ok(name) => if valid_utf8(name) {
                Sniffed::Hostname(decode_utf8(name))
            } else {
                Sniffed::Failed(ProxyErrorView::InvalidHostnameEncoding)
            },
        }),
{
    let body = hello_bytes(h);
    let hs = handshake_bytes(h);
    let stream = record_bytes(h, minor) + rest;
    lemma_handshake_header(h);
    lemma_be16_of_u16_bytes(hs.len() as int);
    assert(stream[0] == CONTENT_HANDSHAKE);
    assert(stream[1] == RECORD_VERSION_MAJOR);
    assert(stream[3] == u16_bytes(hs.len() as int)[0]);
    assert(stream[4] == u16_bytes(hs.len() as int)[1]);
    let end = RECORD_HEADER_LEN + hs.len() as int;
    let got = Seq::<u8>::empty() + stream.subrange(RECORD_HEADER_LEN as int, end);
    assert(got =~= hs);
    assert(gathered(stream, 0, Seq::empty()) == gathered(stream, end, got));
    assert(got.subrange(0, announced_len(got)) =~= hs);
    assert(gathered(stream, end, got) == Gathered::Message(hs));
    assert(sniffed(stream) == sniffed_message(hs));
}

/// The header of the handshake message that carries a ClientHello names the
/// type and the length of the body, and the body follows it.
proof fn lemma_handshake_header(h: ClientHello)
    requires
        h.well_formed(),
    ensures
        handshake_bytes(h).len() == 4 + hello_bytes(h).len(),
        handshake_bytes(h)[0] == HANDSHAKE_CLIENT_HELLO,
        announced_len(handshake_bytes(h)) == handshake_bytes(h).len(),
        message_host_name(handshake_bytes(h)) == hello_host_name(hello_bytes(h)),
{
    let body = hello_bytes(h);
    let hs = handshake_bytes(h);
    lemma_be24_of_u24_bytes(body.len() as int);
    assert(hs.len() == 4 + body.len());
    assert(hs[0] == HANDSHAKE_CLIENT_HELLO);
    assert(hs[1] == u24_bytes(body.len() as int)[0]);
    assert(hs[2] == u24_bytes(body.len() as int)[1]);
    assert(hs[3] == u24_bytes(body.len() as int)[2]);
    assert(hs.subrange(4, 4 + body.len() as int) =~= body);
}

/// Every ClientHello that is written as a record, and whose first
/// server-name extension lists a host name, is read back with exactly that
/// name, whatever bytes follow the record.
pub proof fn lemma_sniff_reads_back_host_name(
    h: ClientHello,
    minor: u8,
    names: Seq<ServerName>,
    host: Seq<char>,
    rest: Seq<u8>,
)
    requires
        h.well_formed(),
        h.extensions is Some,
        first_server_name(h.extensions.unwrap()) == Some(server_name_data(names)),
        names_fit(names),
        first_host(names) == Some(encode_utf8(host)),
        encode_utf8(host).len() > 0,
    ensures
        sniffed(record_bytes(h, minor) + rest) == Sniffed::Hostname(host),
{
    let exts = h.extensions.unwrap();
    lemma_reads_back_record(h, minor, rest);
    lemma_reads_back_extensions_block(h);
    lemma_reads_back_extension(exts);
    lemma_data_fits(exts);
    lemma_reads_back_server_name(names);
    lemma_reads_back_host(names);
    vstd::utf8::encode_utf8_valid_utf8(host);
    vstd::utf8::encode_utf8_decode_utf8(host);
}

/// The data of the first server-name extension is that of one of the
/// extensions, and so is as short as theirs.
proof fn lemma_data_fits(exts: Seq<Extension>)
    requires
        extensions_fit(exts),
    ensures
        first_server_name(exts) is Some ==> first_server_name(exts).unwrap().len() <= 65535,
    decreases exts.len(),
{
    if exts.len() > 0 && exts[0].kind != 0 {
        let rest = exts.drop_first();
        assert forall|i: int| 0 <= i < rest.len() implies (#[trigger] rest[i]).data.len()
            <= 65535 by {
            assert(rest[i] == exts[i + 1]);
        }
        lemma_data_fits(rest);
    }
}

/// Every ClientHello that is written as a record with an extensions block
/// in which no extension is of the server-name type is refused with
/// `MissingSNI`: no host name comes of it, whatever bytes follow the record.
pub proof fn lemma_sniff_reports_missing_sni(h: ClientHello, minor: u8, rest: Seq<u8>)
    requires
        h.well_formed(),
        h.extensions is Some,
        first_server_name(h.extensions.unwrap()) is None,
    ensures
        sniffed(record_bytes(h, minor) + rest) == Sniffed::Failed(ProxyErrorView::MissingSNI),
{
    lemma_reads_back_record(h, minor, rest);
    lemma_reads_back_extensions_block(h);
    lemma_reads_back_extension(h.extensions.unwrap());
}

/// A ClientHello that is written as a record without an extensions block is
/// refused with `NoExtensions`.
pub proof fn lemma_sniff_reports_no_extensions(h: ClientHello, minor: u8, rest: Seq<u8>)
    requires
        h.well_formed(),
        h.extensions is None,
    ensures
        sniffed(record_bytes(h, minor) + rest) == Sniffed::Failed(ProxyErrorView::NoExtensions),
{
    lemma_reads_back_record(h, minor, rest);
    lemma_reads_back_extensions_block(h);
}

/// As long as a byte of the record is missing, nothing is known yet.
pub proof fn lemma_partial_record_is_incomplete(h: ClientHello, minor: u8, k: int)
    requires
        h.well_formed(),
        0 <= k < record_bytes(h, minor).len(),
    ensures
        sniffed(record_bytes(h, minor).subrange(0, k)) is Incomplete,
{
    let hs = handshake_bytes(h);
    let record = record_bytes(h, minor);
    let part = record.subrange(0, k);
    lemma_handshake_header(h);
    lemma_be16_of_u16_bytes(hs.len() as int);
    assert(record.len() == RECORD_HEADER_LEN + hs.len());
    assert(record[0] == CONTENT_HANDSHAKE);
    assert(record[1] == RECORD_VERSION_MAJOR);
    assert(record[3] == u16_bytes(hs.len() as int)[0]);
    assert(record[4] == u16_bytes(hs.len() as int)[1]);
    assert(gathered(part, 0, Seq::empty()) is Incomplete);
}

/// However a stream that starts with the record of a ClientHello is cut into
/// reads: where the hello's first server-name extension lists a host name,
/// exactly that name is found, and the bytes that come back with it are the
/// stream's own first bytes, the whole record among them.
pub proof fn lemma_hello_is_extracted(
    h: ClientHello,
    minor: u8,
    names: Seq<ServerName>,
    host: Seq<char>,
    rest: Seq<u8>,
    reads: Seq<Vec<u8>>,
)
    requires
        h.well_formed(),
        h.extensions is Some,
        first_server_name(h.extensions.unwrap()) == Some(server_name_data(names)),
        names_fit(names),
        first_host(names) == Some(encode_utf8(host)),
        encode_utf8(host).len() > 0,
        joined(reads, reads.len() as int) == record_bytes(h, minor) + rest,
    ensures
        parsed_sni(reads) is Ok,
        parsed_sni(reads)->Ok_0.0 == host,
        record_bytes(h, minor).len() <= parsed_sni(reads)->Ok_0.1.len() <= (record_bytes(
            h,
            minor,
        ) + rest).len(),
        parsed_sni(reads)->Ok_0.1 == (record_bytes(h, minor) + rest).subrange(
            0,
            parsed_sni(reads)->Ok_0.1.len() as int,
        ),
{
    let record = record_bytes(h, minor);
    let stream = record + rest;
    lemma_sniff_reads_back_host_name(h, minor, names, host, rest);
    lemma_chunking_is_immaterial(reads);
    let prefix = joined(reads, reads_taken(reads, 0));
    let tail = choose|tail: Seq<u8>| stream == prefix + tail;
    assert(stream == prefix + tail);
    assert(prefix =~= stream.subrange(0, prefix.len() as int));
    if prefix.len() < record.len() {
        lemma_partial_record_is_incomplete(h, minor, prefix.len() as int);
        assert(record.subrange(0, prefix.len() as int) =~= prefix);
    }
}

/// One piece of a handshake message as a TLS record of its own.
pub open spec fn piece_record(piece: Seq<u8>, minor: u8) -> Seq<u8> {
    seq![CONTENT_HANDSHAKE, RECORD_VERSION_MAJOR, minor] + u16_bytes(piece.len() as int) + piece
}

/// The records that carry the pieces of a handshake message, one record for
/// each piece, in order.
pub open spec fn records_bytes(pieces: Seq<Seq<u8>>, minor: u8) -> Seq<u8>
    decreases pieces.len(),
{
    if pieces.len() == 0 {
        Seq::empty()
    } else {
        piece_record(pieces[0], minor) + records_bytes(pieces.drop_first(), minor)
    }
}

/// The pieces joined, in order.
pub open spec fn pieces_joined(pieces: Seq<Seq<u8>>) -> Seq<u8>
    decreases pieces.len(),
{
    if pieces.len() == 0 {
        Seq::empty()
    } else {
        pieces[0] + pieces_joined(pieces.drop_first())
    }
}

/// Whether each piece can be the payload of a record: it is not empty and
/// no longer than `MAX_RECORD_PAYLOAD`.
pub open spec fn pieces_fit(pieces: Seq<Seq<u8>>) -> bool {
    forall|i: int| 0 <= i < pieces.len() ==> 0 < (#[trigger] pieces[i]).len() <= MAX_RECORD_PAYLOAD
}

proof fn lemma_gathers_pieces(
    stream: Seq<u8>,
    at: int,
    got: Seq<u8>,
    pieces: Seq<Seq<u8>>,
    minor: u8,
    message: Seq<u8>,
)
    requires
        0 <= at,
        pieces_fit(pieces),
        at + records_bytes(pieces, minor).len() <= stream.len(),
        at + records_bytes(pieces, minor).len() <= SNIFF_LIMIT,
        stream.subrange(at, at + records_bytes(pieces, minor).len()) == records_bytes(
            pieces,
            minor,
        ),
        got + pieces_joined(pieces) == message,
        message.len() >= 4,
        message[0] == HANDSHAKE_CLIENT_HELLO,
        announced_len(message) == message.len(),
    ensures
        gathered(stream, at, got) == Gathered::Message(message),
    decreases pieces.len(),
{
    if pieces.len() == 0 {
        assert(got =~= message);
        assert(got.subrange(0, announced_len(got)) =~= message);
    } else {
        let piece = pieces[0];
        let rest = pieces.drop_first();
        let wire = records_bytes(pieces, minor);
        let tail = records_bytes(rest, minor);
        let n = piece.len() as int;
        let end = at + RECORD_HEADER_LEN + n;
        lemma_be16_of_u16_bytes(n);
        assert(wire == piece_record(piece, minor) + tail);
        assert(wire.len() == RECORD_HEADER_LEN + n + tail.len());
        assert(message.len() == got.len() + n + pieces_joined(rest).len());
        assert(forall|i: int| 0 <= i < got.len() ==> got[i] == message[i]);
        let window = stream.subrange(at, at + wire.len());
        assert(forall|i: int| 0 <= i < wire.len() ==> #[trigger] window[i] == stream[at + i]);
        assert(stream[at] == window[0]);
        assert(stream[at + 1] == window[1]);
        assert(stream[at + 3] == window[3]);
        assert(stream[at + 4] == window[4]);
        assert(wire[3] == u16_bytes(n)[0]);
        assert(wire[4] == u16_bytes(n)[1]);
        assert forall|j: int| 0 <= j < n implies stream.subrange(at + RECORD_HEADER_LEN, end)[j]
            == piece[j] by {
            assert(window[RECORD_HEADER_LEN + j] == stream[at + (RECORD_HEADER_LEN + j)]);
            assert(wire[RECORD_HEADER_LEN + j] == piece[j]);
        }
        assert(stream.subrange(at + RECORD_HEADER_LEN, end) =~= piece);
        assert forall|j: int| 0 <= j < tail.len() implies stream.subrange(
            end,
            end + tail.len(),
        )[j] == tail[j] by {
            assert(window[RECORD_HEADER_LEN + n + j] == stream[at + (RECORD_HEADER_LEN + n + j)]);
            assert(wire[RECORD_HEADER_LEN + n + j] == tail[j]);
        }
        assert(stream.subrange(end, end + tail.len()) =~= tail);
        assert((got + piece) + pieces_joined(rest) =~= message);
        assert forall|i: int| 0 <= i < rest.len() implies 0 < (#[trigger] rest[i]).len()
            <= MAX_RECORD_PAYLOAD by {
            assert(rest[i] == pieces[i + 1]);
        }
        lemma_gathers_pieces(stream, end, got + piece, rest, minor, message);
    }
}

/// A ClientHello reads back the same however its handshake message is cut
/// into records, as long as the records end within `SNIFF_LIMIT`: what is
/// found is what the one record that carries it whole would give.
pub proof fn lemma_hello_in_records_reads_back(
    h: ClientHello,
    minor: u8,
    pieces: Seq<Seq<u8>>,
    rest: Seq<u8>,
)
    requires
        h.well_formed(),
        pieces_fit(pieces),
        pieces_joined(pieces) == handshake_bytes(h),
        records_bytes(pieces, minor).len() <= SNIFF_LIMIT,
    ensures
        sniffed(records_bytes(pieces, minor) + rest) == sniffed(record_bytes(h, minor) + rest),
{
    let wire = records_bytes(pieces, minor);
    let stream = wire + rest;
    let hs = handshake_bytes(h);
    lemma_handshake_header(h);
    lemma_reads_back_record(h, minor, rest);
    assert(stream.subrange(0, wire.len() as int) =~= wire);
    assert(Seq::<u8>::empty() + pieces_joined(pieces) =~= hs);
    lemma_gathers_pieces(stream, 0, Seq::empty(), pieces, minor, hs);
}

} // verus!
