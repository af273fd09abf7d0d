//! Messages built from their fields are found whole, and cut ones are not.
use crate::net_laws::{four_bytes, four_bytes_read_back, two_bytes, two_bytes_read_back};
use crate::render_laws::{sendable, sent_row, sent_value};
use crate::wire::{
    after_cstring, after_values, backend_next, bind_fits, columns_fit, first_nul, frontend_next,
    is_backend_tag, is_frontend_tag, opening_step, parse_fits, reply_step, reports_end, BackendView,
    DecodeContext, FrontendView, NegotiationReply,
};
use vstd::prelude::*;

verus! {

/// The opening bytes of a client: eight of them with the code 80877103 ask for SSL, with
/// 80877104 for GSS, and are taken; any others ask for neither and stay. Fewer are waited on.
pub proof fn opening_requests_are_told_by_their_code(length: u32, code: u32, rest: Seq<u8>)
    ensures
        ({
            let s = opening_step(four_bytes(length) + four_bytes(code) + rest);
            &&& code == 80877103 ==> s.consumed == 8 && s.result == Ok::<
                Option<FrontendView>,
                Seq<char>,
            >(Some(FrontendView::SslRequest))
            &&& code == 80877104 ==> s.consumed == 8 && s.result == Ok::<
                Option<FrontendView>,
                Seq<char>,
            >(Some(FrontendView::GssEncRequest))
            &&& code != 80877103 && code != 80877104 ==> s.consumed == 0 && s.result == Ok::<
                Option<FrontendView>,
                Seq<char>,
            >(Some(FrontendView::NoNegotiation))
        }),
        rest.len() < 8 ==> opening_step(rest).consumed == 0 && opening_step(rest).result == Ok::<
            Option<FrontendView>,
            Seq<char>,
        >(None),
{
    let b = four_bytes(length) + four_bytes(code) + rest;
    assert(b.subrange(4, 8) =~= four_bytes(code));
    four_bytes_read_back(b, 4, code);
}

/// The server's answer is one byte: `S` accepts SSL and `G` accepts GSS, and `N` refuses
/// either. Anything else is no answer and stays.
pub proof fn answers_are_one_byte(first: u8, rest: Seq<u8>, ctx: DecodeContext)
    ensures
        ({
            let s = reply_step(seq![first] + rest, ctx);
            &&& ctx.awaiting_backend_ssl_response && first as int == 'S' as int ==> s.consumed == 1
                && s.result == Ok::<Option<BackendView>, Seq<char>>(
                Some(BackendView::SslResponse(NegotiationReply::Accept)),
            )
            &&& ctx.awaiting_backend_ssl_response && first as int == 'N' as int ==> s.consumed == 1
                && s.result == Ok::<Option<BackendView>, Seq<char>>(
                Some(BackendView::SslResponse(NegotiationReply::Refuse)),
            )
            &&& !ctx.awaiting_backend_ssl_response && first as int == 'G' as int ==> s.consumed == 1
                && s.result == Ok::<Option<BackendView>, Seq<char>>(
                Some(BackendView::GssEncResponse(NegotiationReply::Accept)),
            )
            &&& !ctx.awaiting_backend_ssl_response && first as int == 'N' as int ==> s.consumed == 1
                && s.result == Ok::<Option<BackendView>, Seq<char>>(
                Some(BackendView::GssEncResponse(NegotiationReply::Refuse)),
            )
            &&& first as int != 'N' as int && first as int != 'S' as int && first as int
                != 'G' as int ==> s.consumed == 0 && s.result == Ok::<
                Option<BackendView>,
                Seq<char>,
            >(None)
            &&& ctx.awaiting_backend_ssl_response && first as int == 'G' as int ==> s.consumed == 0
            &&& !ctx.awaiting_backend_ssl_response && first as int == 'S' as int ==> s.consumed == 0
        }),
        reply_step(Seq::empty(), ctx).consumed == 0,
{
    assert((seq![first] + rest)[0] == first);
}

/// A message is looked at by what its side awaits: a client's opening bytes as a request, the
/// server's next byte as an answer, and anything else as a message of at least two bytes.
pub proof fn bytes_are_read_by_what_is_awaited(b: Seq<u8>, ctx: DecodeContext)
    ensures
        ctx.awaiting_frontend_ssl ==> frontend_next(b, ctx) == opening_step(b),
        ctx.awaiting_backend_ssl_response || ctx.awaiting_backend_gss_response ==> backend_next(
            b,
            ctx,
        ) == reply_step(b, ctx),
        !ctx.awaiting_frontend_ssl && b.len() < 2 ==> frontend_next(b, ctx).consumed == 0,
        !ctx.awaiting_frontend_ssl && !ctx.awaiting_frontend_startup && b.len() < 5 && b.len() > 0
            && is_frontend_tag(b[0]) ==> frontend_next(b, ctx).consumed == 0,
        !ctx.awaiting_frontend_ssl && ctx.awaiting_frontend_startup && b.len() < 8
            ==> frontend_next(b, ctx).consumed == 0,
        !ctx.awaiting_backend_ssl_response && !ctx.awaiting_backend_gss_response && b.len() < 2
            ==> backend_next(b, ctx).consumed == 0,
{
}

/// The tags of the messages of a client and of a server, as letters.
pub proof fn tags_are_letters(c: char)
    requires
        (c as u32) < 128,
    ensures
        is_frontend_tag(c as u8) <==> c == 'p' || c == 'Q' || c == 'P' || c == 'B' || c == 'C' || c
            == 'D' || c == 'E' || c == 'H' || c == 'S' || c == 'X' || c == 'd' || c == 'f' || c
            == 'c',
        is_backend_tag(c as u8) <==> c == 'R' || c == 'S' || c == 'K' || c == 'v' || c == '1' || c
            == '2' || c == '3' || c == 's' || c == 'C' || c == 'I' || c == 'Z' || c == 'E' || c
            == 'N' || c == 'A' || c == 't' || c == 'T' || c == 'D' || c == 'n' || c == 'd' || c
            == 'f' || c == 'c' || c == 'G' || c == 'H' || c == 'W',
{
}

// --- bodies ---------------------------------------------------------------------------------------

/// A text without zero bytes, and a zero byte behind it.
pub open spec fn cstring(s: Seq<u8>) -> Seq<u8> {
    s.push(0)
}

/// Whether bytes hold no zero.
pub open spec fn no_nul(s: Seq<u8>) -> bool {
    forall|i: int| 0 <= i < s.len() ==> #[trigger] s[i] != 0
}

/// What stands behind a string is found, and where nothing ends it nothing is passed over.
pub proof fn strings_end_at_their_zero(s: Seq<u8>, rest: Seq<u8>)
    requires
        no_nul(s),
    ensures
        after_cstring(cstring(s) + rest) == rest,
        after_cstring(s) == s,
    decreases s.len(),
{
    lemma_first_nul(s, rest);
    lemma_no_nul(s);
    let b = cstring(s) + rest;
    assert(b.skip(s.len() as int + 1) =~= rest);
}

proof fn lemma_first_nul(s: Seq<u8>, rest: Seq<u8>)
    requires
        no_nul(s),
    ensures
        first_nul(cstring(s) + rest) == s.len(),
    decreases s.len(),
{
    let b = cstring(s) + rest;
    if s.len() == 0 {
        assert(b[0] == 0);
    } else {
        assert(b[0] == s[0]);
        assert(b.skip(1) =~= cstring(s.skip(1)) + rest);
        assert forall|i: int| 0 <= i < s.skip(1).len() implies #[trigger] s.skip(1)[i] != 0 by {
            assert(s.skip(1)[i] == s[i + 1]);
        }
        lemma_first_nul(s.skip(1), rest);
    }
}

proof fn lemma_no_nul(s: Seq<u8>)
    requires
        no_nul(s),
    ensures
        first_nul(s) == s.len(),
    decreases s.len(),
{
    if s.len() > 0 {
        assert(s[0] != 0);
        assert forall|i: int| 0 <= i < s.skip(1).len() implies #[trigger] s.skip(1)[i] != 0 by {
            assert(s.skip(1)[i] == s[i + 1]);
        }
        lemma_no_nul(s.skip(1));
    }
}

/// The body of a `Parse` is whole where its types are: four bytes for each that it counts.
pub proof fn parse_bodies_hold_their_types(
    name: Seq<u8>,
    query: Seq<u8>,
    count: u16,
    types: Seq<u8>,
)
    requires
        no_nul(name),
        no_nul(query),
    ensures
        parse_fits(cstring(name) + (cstring(query) + (two_bytes(count) + types))) <==> types.len()
            >= 4 * count,
{
    let counted = two_bytes(count) + types;
    strings_end_at_their_zero(query, counted);
    strings_end_at_their_zero(name, cstring(query) + counted);
    assert(counted.subrange(0, 2) =~= two_bytes(count));
    two_bytes_read_back(counted, 0, count);
}

#[verifier::rlimit(30)]
proof fn lemma_values(values: Seq<Option<Seq<u8>>>, rest: Seq<u8>)
    requires
        forall|k: int|
            0 <= k < values.len() ==> (#[trigger] values[k] matches Some(bytes) ==> bytes.len()
                < 0x8000_0000),
    ensures
        after_values(sent_row(values) + rest, values.len()) == Some(rest),
    decreases values.len(),
{
    let b = sent_row(values) + rest;
    if values.len() == 0 {
        assert(b =~= rest);
    } else {
        let tail = values.skip(1);
        let first = sent_value(values[0]);
        assert(values[0] matches Some(bytes) ==> bytes.len() < 0x8000_0000);
        assert(b =~= first + (sent_row(tail) + rest));
        match values[0] {
            Some(bytes) => {
                let n = bytes.len() as u32;
                assert(b.subrange(0, 4) =~= four_bytes(n));
                four_bytes_read_back(b, 0, n);
                assert(b.skip(4 + n) =~= sent_row(tail) + rest);
            },
            None => {
                assert(b[0] == 0xff && b[1] == 0xff && b[2] == 0xff && b[3] == 0xff);
                assert(crate::net::be32(b, 0) == 0xffff_ffff);
                assert(b.skip(4) =~= sent_row(tail) + rest);
            },
        }
        assert forall|k: int| 0 <= k < tail.len() implies (#[trigger] tail[k] matches Some(bytes)
            ==> bytes.len() < 0x8000_0000) by {
            assert(tail[k] == values[k + 1]);
        }
        lemma_values(tail, rest);
    }
}

/// The body of a `Bind` is whole where its formats, its values and the count of its result
/// formats are.
#[verifier::rlimit(30)]
pub proof fn bind_bodies_hold_their_values(
    portal: Seq<u8>,
    statement: Seq<u8>,
    formats: Seq<u8>,
    values: Seq<Option<Seq<u8>>>,
    results: Seq<u8>,
)
    requires
        no_nul(portal),
        no_nul(statement),
        formats.len() % 2 == 0,
        formats.len() / 2 <= 0xffff,
        sendable(values),
    ensures
        bind_fits(
            cstring(portal) + (cstring(statement) + (two_bytes((formats.len() / 2) as u16) + (formats
                + (two_bytes(values.len() as u16) + (sent_row(values) + results))))),
        ) <==> results.len() >= 2,
{
    let rows = sent_row(values) + results;
    let counted = two_bytes(values.len() as u16) + rows;
    let n = (formats.len() / 2) as u16;
    let all = two_bytes(n) + (formats + counted);
    strings_end_at_their_zero(statement, all);
    strings_end_at_their_zero(portal, cstring(statement) + all);
    assert(all.subrange(0, 2) =~= two_bytes(n));
    two_bytes_read_back(all, 0, n);
    assert(all.skip(2 + 2 * n) =~= counted);
    assert(counted.subrange(0, 2) =~= two_bytes(values.len() as u16));
    two_bytes_read_back(counted, 0, values.len() as u16);
    assert(counted.skip(2) =~= rows);
    lemma_values(values, results);
}

/// Columns are described by a name and eighteen bytes each.
pub proof fn columns_are_a_name_and_eighteen_bytes(name: Seq<u8>, facts: Seq<u8>, rest: Seq<u8>, n: nat)
    requires
        no_nul(name),
        facts.len() == 18,
    ensures
        columns_fit(cstring(name) + (facts + rest), n + 1) <==> columns_fit(rest, n),
        rest.len() < 18 ==> !columns_fit(cstring(name) + rest, n + 1),
        columns_fit(rest, 0),
{
    strings_end_at_their_zero(name, facts + rest);
    strings_end_at_their_zero(name, rest);
    assert((facts + rest).skip(18) =~= rest);
}

/// The fields of an error or notice end with a zero byte.
pub proof fn reports_end_with_a_zero(tag: u8, text: Seq<u8>, rest: Seq<u8>)
    requires
        tag != 0,
        no_nul(text),
    ensures
        reports_end(seq![tag] + (cstring(text) + rest)) <==> reports_end(rest),
        reports_end(seq![0u8] + rest),
        !reports_end(Seq::empty()),
{
    let b = seq![tag] + (cstring(text) + rest);
    assert(b[0] == tag);
    assert(b.skip(1) =~= cstring(text) + rest);
    strings_end_at_their_zero(text, rest);
    assert((seq![0u8] + rest)[0] == 0);
}

} // verus!
