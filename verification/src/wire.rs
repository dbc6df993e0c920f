use vstd::prelude::*;
use vstd::string::StrSliceExecFns;
use vstd::utf8::encode_utf8;

use crate::rows::{SnippetRow, SnippetRowV, SnippetTagRow, SnippetTagRowV, TagRow, TagRowV};

verus! {

// ---------------------------------------------------------------------------
// The bytes the sync engine puts on the wire: a JSON payload carrying the
// three change sets, inside a line-oriented frame. Everything here is
// verified byte arithmetic; the transport underneath is the application's.
// ---------------------------------------------------------------------------

/// One decimal digit as its byte.
pub open spec fn dec_byte(d: int) -> u8 {
    (48 + d) as u8
}

/// The decimal digit bytes of a positive number, most significant first.
pub open spec fn dec_bytes_digits(n: int) -> Seq<u8>
    decreases n,
{
    if n <= 0 {
        Seq::empty()
    } else if n < 10 {
        seq![dec_byte(n)]
    } else {
        dec_bytes_digits(n / 10).push(dec_byte(n % 10))
    }
}

/// The canonical decimal rendering of an integer, in bytes.
pub open spec fn dec_bytes(n: int) -> Seq<u8> {
    if n == 0 {
        seq![48u8]
    } else if n < 0 {
        seq![45u8] + dec_bytes_digits(-n)
    } else {
        dec_bytes_digits(n)
    }
}

/// One lowercase hexadecimal digit as its byte.
pub open spec fn hex_byte(d: int) -> u8 {
    if d < 10 {
        (48 + d) as u8
    } else {
        (87 + d) as u8
    }
}

/// How one byte of a string appears inside a JSON string literal: quote
/// and backslash are escaped, control bytes become `\u00XX`, and every
/// other byte (UTF-8 continuation bytes included) passes through.
pub open spec fn escape_byte(b: u8) -> Seq<u8> {
    if b == 34 {
        seq![92u8, 34u8]
    } else if b == 92 {
        seq![92u8, 92u8]
    } else if b < 32 {
        seq![92u8, 117u8, 48u8, 48u8, hex_byte(b as int / 16), hex_byte(b as int % 16)]
    } else {
        seq![b]
    }
}

pub open spec fn escape_bytes(s: Seq<u8>) -> Seq<u8>
    decreases s.len(),
{
    if s.len() == 0 {
        Seq::empty()
    } else {
        escape_bytes(s.drop_last()) + escape_byte(s.last())
    }
}

/// A JSON string literal: the escaped bytes between double quotes.
pub open spec fn json_string_bytes(s: Seq<u8>) -> Seq<u8> {
    seq![34u8] + escape_bytes(s) + seq![34u8]
}

/// Booleans go on the wire as the storage layer held them: zero or one.
pub open spec fn bool01(b: bool) -> int {
    if b {
        1
    } else {
        0
    }
}

/// One snippet row as a JSON object.
pub open spec fn json_of_snippet_row(r: SnippetRowV) -> Seq<u8> {
    encode_utf8("{\"id\":"@) + dec_bytes(r.id) + encode_utf8(",\"name\":"@) + json_string_bytes(
        encode_utf8(r.name),
    ) + encode_utf8(",\"content\":"@) + json_string_bytes(encode_utf8(r.content)) + encode_utf8(
        ",\"deleted\":"@,
    ) + dec_bytes(bool01(r.deleted)) + encode_utf8(",\"last_updated\":"@) + dec_bytes(
        r.last_updated,
    ) + encode_utf8("}"@)
}

/// One tag row as a JSON object.
pub open spec fn json_of_tag_row(r: TagRowV) -> Seq<u8> {
    encode_utf8("{\"id\":"@) + dec_bytes(r.id) + encode_utf8(",\"name\":"@) + json_string_bytes(
        encode_utf8(r.name),
    ) + encode_utf8(",\"deleted\":"@) + dec_bytes(bool01(r.deleted)) + encode_utf8(
        ",\"last_updated\":"@,
    ) + dec_bytes(r.last_updated) + encode_utf8("}"@)
}

/// One association row as a JSON object.
pub open spec fn json_of_link_row(r: SnippetTagRowV) -> Seq<u8> {
    encode_utf8("{\"id\":"@) + dec_bytes(r.id) + encode_utf8(",\"snippet_id\":"@) + dec_bytes(
        r.snippet_id,
    ) + encode_utf8(",\"tag_id\":"@) + dec_bytes(r.tag_id) + encode_utf8(",\"deleted\":"@)
        + dec_bytes(bool01(r.deleted)) + encode_utf8(",\"last_updated\":"@) + dec_bytes(
        r.last_updated,
    ) + encode_utf8("}"@)
}

/// A comma-separated run of snippet rows.
pub open spec fn json_snippet_rows(rows: Seq<SnippetRowV>) -> Seq<u8>
    decreases rows.len(),
{
    if rows.len() == 0 {
        Seq::empty()
    } else if rows.len() == 1 {
        json_of_snippet_row(rows[0])
    } else {
        json_snippet_rows(rows.drop_last()) + encode_utf8(","@) + json_of_snippet_row(rows.last())
    }
}

/// A comma-separated run of tag rows.
pub open spec fn json_tag_rows(rows: Seq<TagRowV>) -> Seq<u8>
    decreases rows.len(),
{
    if rows.len() == 0 {
        Seq::empty()
    } else if rows.len() == 1 {
        json_of_tag_row(rows[0])
    } else {
        json_tag_rows(rows.drop_last()) + encode_utf8(","@) + json_of_tag_row(rows.last())
    }
}

/// A comma-separated run of association rows.
pub open spec fn json_link_rows(rows: Seq<SnippetTagRowV>) -> Seq<u8>
    decreases rows.len(),
{
    if rows.len() == 0 {
        Seq::empty()
    } else if rows.len() == 1 {
        json_of_link_row(rows[0])
    } else {
        json_link_rows(rows.drop_last()) + encode_utf8(","@) + json_of_link_row(rows.last())
    }
}

/// The whole payload: the three change sets as one JSON object.
pub open spec fn sync_payload_bytes(
    sn: Seq<SnippetRowV>,
    tg: Seq<TagRowV>,
    st: Seq<SnippetTagRowV>,
) -> Seq<u8> {
    encode_utf8("{\"snippets\":["@) + json_snippet_rows(sn) + encode_utf8("],\"tags\":["@)
        + json_tag_rows(tg) + encode_utf8("],\"snippet_tags\":["@) + json_link_rows(st)
        + encode_utf8("]}"@)
}

/// The framed message: bearer token, the watermark synced from, the
/// payload's byte length, then the payload, each line-terminated.
pub open spec fn sync_frame_bytes(token: Seq<char>, watermark: int, payload: Seq<u8>) -> Seq<u8> {
    encode_utf8(token) + seq![10u8] + dec_bytes(watermark) + seq![10u8] + dec_bytes(
        payload.len() as int,
    ) + seq![10u8] + payload + seq![10u8]
}

// ---------------------------------------------------------------------------
// Executable writers.
// ---------------------------------------------------------------------------

/// Append one byte vector to another.
fn push_byte_vec(out: &mut Vec<u8>, src: &Vec<u8>)
    ensures
        final(out)@ == old(out)@ + src@,
{
    let n = src.len();
    let mut i: usize = 0;
    while i < n
        invariant
            n == src@.len(),
            0 <= i <= n,
            out@ == old(out)@ + src@.take(i as int),
        decreases n - i,
    {
        out.push(src[i]);
        proof {
            assert(out@ =~= old(out)@ + src@.take(i as int + 1));
        }
        i += 1;
    }
    proof {
        assert(src@.take(n as int) =~= src@);
        assert(out@ =~= old(out)@ + src@);
    }
}

/// Append a string's UTF-8 bytes.
fn push_str_bytes(out: &mut Vec<u8>, s: &str)
    ensures
        final(out)@ == old(out)@ + encode_utf8(s@),
{
    let v = s.as_bytes_vec();
    push_byte_vec(out, &v);
}

/// Append the decimal digit bytes of a positive number.
fn push_dec_digits(out: &mut Vec<u8>, m: u64)
    requires
        m >= 1,
    ensures
        final(out)@ == old(out)@ + dec_bytes_digits(m as int),
    decreases m,
{
    if m >= 10 {
        push_dec_digits(out, m / 10);
    }
    let ghost mid = out@;
    let d = (m % 10) as u8;
    out.push(48 + d);
    proof {
        assert(out@ =~= mid + seq![dec_byte(m as int % 10)]);
        if m < 10 {
            assert(dec_bytes_digits(m as int) == seq![dec_byte(m as int)]);
            assert(out@ =~= old(out)@ + dec_bytes_digits(m as int));
        } else {
            assert(dec_bytes_digits(m as int) == dec_bytes_digits(m as int / 10).push(
                dec_byte(m as int % 10),
            ));
            assert(out@ =~= old(out)@ + dec_bytes_digits(m as int));
        }
    }
}

/// Append the decimal rendering of a signed 64-bit value.
fn push_dec_i64(out: &mut Vec<u8>, n: i64)
    ensures
        final(out)@ == old(out)@ + dec_bytes(n as int),
{
    if n == 0 {
        out.push(48);
        proof {
            assert(out@ =~= old(out)@ + dec_bytes(0));
        }
    } else if n > 0 {
        push_dec_digits(out, n as u64);
    } else {
        out.push(45);
        let ghost mid = out@;
        let m: u64 = if n == i64::MIN {
            9223372036854775808u64
        } else {
            (-n) as u64
        };
        proof {
            assert(m as int == -(n as int));
        }
        push_dec_digits(out, m);
        proof {
            assert(out@ =~= old(out)@ + dec_bytes(n as int));
        }
    }
}

/// Append the decimal rendering of a length.
fn push_dec_usize(out: &mut Vec<u8>, n: usize)
    ensures
        final(out)@ == old(out)@ + dec_bytes(n as int),
{
    if n == 0 {
        out.push(48);
        proof {
            assert(out@ =~= old(out)@ + dec_bytes(0));
        }
    } else {
        push_dec_digits(out, n as u64);
    }
}

/// Append a string as a JSON string literal, escaping as `escape_byte`
/// says.
fn push_json_string(out: &mut Vec<u8>, s: &str)
    ensures
        final(out)@ == old(out)@ + json_string_bytes(encode_utf8(s@)),
{
    out.push(34);
    let bv = s.as_bytes_vec();
    let n = bv.len();
    let mut i: usize = 0;
    while i < n
        invariant
            n == bv@.len(),
            bv@ == encode_utf8(s@),
            0 <= i <= n,
            out@ == old(out)@ + seq![34u8] + escape_bytes(bv@.take(i as int)),
        decreases n - i,
    {
        let ghost pre = out@;
        let c = bv[i];
        if c == 34 {
            out.push(92);
            out.push(34);
        } else if c == 92 {
            out.push(92);
            out.push(92);
        } else if c < 32 {
            out.push(92);
            out.push(117);
            out.push(48);
            out.push(48);
            let hi = c / 16;
            let lo = c % 16;
            out.push(
                if hi < 10 {
                    48 + hi
                } else {
                    87 + hi
                },
            );
            out.push(
                if lo < 10 {
                    48 + lo
                } else {
                    87 + lo
                },
            );
        } else {
            out.push(c);
        }
        proof {
            assert(out@ =~= pre + escape_byte(bv@[i as int]));
            assert(bv@.take(i as int + 1).drop_last() =~= bv@.take(i as int));
            assert(bv@.take(i as int + 1).last() == bv@[i as int]);
            assert(out@ =~= old(out)@ + seq![34u8] + escape_bytes(bv@.take(i as int + 1)));
        }
        i += 1;
    }
    out.push(34);
    proof {
        assert(bv@.take(n as int) =~= bv@);
        assert(out@ =~= old(out)@ + json_string_bytes(encode_utf8(s@)));
    }
}

/// Append one snippet row as a JSON object.
fn push_snippet_row(out: &mut Vec<u8>, r: &SnippetRow)
    ensures
        final(out)@ == old(out)@ + json_of_snippet_row(r@),
{
    push_str_bytes(out, "{\"id\":");
    push_dec_i64(out, r.id);
    push_str_bytes(out, ",\"name\":");
    push_json_string(out, r.name.as_str());
    push_str_bytes(out, ",\"content\":");
    push_json_string(out, r.content.as_str());
    push_str_bytes(out, ",\"deleted\":");
    push_dec_i64(
        out,
        if r.deleted {
            1
        } else {
            0
        },
    );
    push_str_bytes(out, ",\"last_updated\":");
    push_dec_i64(out, r.last_updated);
    push_str_bytes(out, "}");
    proof {
        assert(out@ =~= old(out)@ + json_of_snippet_row(r@));
    }
}

/// Append one tag row as a JSON object.
fn push_tag_row(out: &mut Vec<u8>, r: &TagRow)
    ensures
        final(out)@ == old(out)@ + json_of_tag_row(r@),
{
    push_str_bytes(out, "{\"id\":");
    push_dec_i64(out, r.id);
    push_str_bytes(out, ",\"name\":");
    push_json_string(out, r.name.as_str());
    push_str_bytes(out, ",\"deleted\":");
    push_dec_i64(
        out,
        if r.deleted {
            1
        } else {
            0
        },
    );
    push_str_bytes(out, ",\"last_updated\":");
    push_dec_i64(out, r.last_updated);
    push_str_bytes(out, "}");
    proof {
        assert(out@ =~= old(out)@ + json_of_tag_row(r@));
    }
}

/// Append one association row as a JSON object.
fn push_link_row(out: &mut Vec<u8>, r: &SnippetTagRow)
    ensures
        final(out)@ == old(out)@ + json_of_link_row(r@),
{
    push_str_bytes(out, "{\"id\":");
    push_dec_i64(out, r.id);
    push_str_bytes(out, ",\"snippet_id\":");
    push_dec_i64(out, r.snippet_id);
    push_str_bytes(out, ",\"tag_id\":");
    push_dec_i64(out, r.tag_id);
    push_str_bytes(out, ",\"deleted\":");
    push_dec_i64(
        out,
        if r.deleted {
            1
        } else {
            0
        },
    );
    push_str_bytes(out, ",\"last_updated\":");
    push_dec_i64(out, r.last_updated);
    push_str_bytes(out, "}");
    proof {
        assert(out@ =~= old(out)@ + json_of_link_row(r@));
    }
}

/// Render the whole sync payload: the three change sets as one JSON
/// object, exactly as `sync_payload_bytes` lays it out.
pub fn render_sync_payload(sn: &Vec<SnippetRow>, tg: &Vec<TagRow>, st: &Vec<SnippetTagRow>) -> (r:
    Vec<u8>)
    ensures
        r@ == sync_payload_bytes(sn.deep_view(), tg.deep_view(), st.deep_view()),
{
    let mut out: Vec<u8> = Vec::new();
    push_str_bytes(&mut out, "{\"snippets\":[");
    let ghost base0 = out@;
    let n0 = sn.len();
    let mut i: usize = 0;
    while i < n0
        invariant
            n0 == sn@.len(),
            0 <= i <= n0,
            base0 == encode_utf8("{\"snippets\":["@),
            out@ == base0 + json_snippet_rows(sn.deep_view().take(i as int)),
        decreases n0 - i,
    {
        if i > 0 {
            push_str_bytes(&mut out, ",");
        }
        push_snippet_row(&mut out, &sn[i]);
        proof {
            let dv = sn.deep_view();
            assert(sn@[i as int]@ == dv[i as int]);
            assert(dv.take(i as int + 1).drop_last() =~= dv.take(i as int));
            assert(dv.take(i as int + 1).last() == dv[i as int]);
            if i == 0 {
                assert(out@ =~= base0 + json_snippet_rows(dv.take(1)));
            } else {
                assert(out@ =~= base0 + json_snippet_rows(dv.take(i as int + 1)));
            }
        }
        i += 1;
    }
    proof {
        assert(sn.deep_view().take(n0 as int) =~= sn.deep_view());
    }
    push_str_bytes(&mut out, "],\"tags\":[");
    let ghost base1 = out@;
    let n1 = tg.len();
    i = 0;
    while i < n1
        invariant
            n1 == tg@.len(),
            0 <= i <= n1,
            base1 == encode_utf8("{\"snippets\":["@) + json_snippet_rows(sn.deep_view())
                + encode_utf8("],\"tags\":["@),
            out@ == base1 + json_tag_rows(tg.deep_view().take(i as int)),
        decreases n1 - i,
    {
        if i > 0 {
            push_str_bytes(&mut out, ",");
        }
        push_tag_row(&mut out, &tg[i]);
        proof {
            let dv = tg.deep_view();
            assert(tg@[i as int]@ == dv[i as int]);
            assert(dv.take(i as int + 1).drop_last() =~= dv.take(i as int));
            assert(dv.take(i as int + 1).last() == dv[i as int]);
            if i == 0 {
                assert(out@ =~= base1 + json_tag_rows(dv.take(1)));
            } else {
                assert(out@ =~= base1 + json_tag_rows(dv.take(i as int + 1)));
            }
        }
        i += 1;
    }
    proof {
        assert(tg.deep_view().take(n1 as int) =~= tg.deep_view());
    }
    push_str_bytes(&mut out, "],\"snippet_tags\":[");
    let ghost base2 = out@;
    let n2 = st.len();
    i = 0;
    while i < n2
        invariant
            n2 == st@.len(),
            0 <= i <= n2,
            base2 == encode_utf8("{\"snippets\":["@) + json_snippet_rows(sn.deep_view())
                + encode_utf8("],\"tags\":["@) + json_tag_rows(tg.deep_view()) + encode_utf8(
                "],\"snippet_tags\":["@,
            ),
            out@ == base2 + json_link_rows(st.deep_view().take(i as int)),
        decreases n2 - i,
    {
        if i > 0 {
            push_str_bytes(&mut out, ",");
        }
        push_link_row(&mut out, &st[i]);
        proof {
            let dv = st.deep_view();
            assert(st@[i as int]@ == dv[i as int]);
            assert(dv.take(i as int + 1).drop_last() =~= dv.take(i as int));
            assert(dv.take(i as int + 1).last() == dv[i as int]);
            if i == 0 {
                assert(out@ =~= base2 + json_link_rows(dv.take(1)));
            } else {
                assert(out@ =~= base2 + json_link_rows(dv.take(i as int + 1)));
            }
        }
        i += 1;
    }
    proof {
        assert(st.deep_view().take(n2 as int) =~= st.deep_view());
    }
    push_str_bytes(&mut out, "]}");
    proof {
        assert(out@ =~= sync_payload_bytes(sn.deep_view(), tg.deep_view(), st.deep_view()));
    }
    out
}

/// Build the framed message for one sync attempt: token, watermark and
/// payload byte length as lines, then the payload bytes and a final
/// newline, exactly as `sync_frame_bytes` lays it out.
pub fn build_sync_message(token: &str, watermark: i64, payload: &Vec<u8>) -> (r: Vec<u8>)
    ensures
        r@ == sync_frame_bytes(token@, watermark as int, payload@),
{
    let mut out: Vec<u8> = Vec::new();
    push_str_bytes(&mut out, token);
    out.push(10);
    push_dec_i64(&mut out, watermark);
    out.push(10);
    push_dec_usize(&mut out, payload.len());
    out.push(10);
    push_byte_vec(&mut out, payload);
    out.push(10);
    proof {
        assert(out@ =~= sync_frame_bytes(token@, watermark as int, payload@));
    }
    out
}

} // verus!
