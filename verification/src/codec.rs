//! The wire codec: every payload published on the two gossip topics is
//! UTF-8 JSON in a canonical shape — object keys in a fixed order,
//! numbers in plain decimal without leading zeros, strings escaped as
//! in [`crate::json`], no whitespace. The serializers produce exactly
//! that shape and the parsers accept exactly that shape; both sides are
//! specified against the same `wire_*` spec functions.

use vstd::prelude::*;

use crate::blocks::{Block, BlockView};
use crate::json::{append_json_escaped, esc_char, json_escape};
use crate::p2p::{ChainResponse, ChainResponseView, LocalChainRequest, LocalChainRequestView};
use crate::text::{dec_int_repr, dec_repr, digit_char, i64_to_dec, push_char, u64_to_dec};

verus! {

/// A JSON string literal: quotes around the escaped contents.
pub open spec fn wire_string(s: Seq<char>) -> Seq<char> {
    seq!['"'] + json_escape(s) + seq!['"']
}

/// The wire form of one block: the keys in declaration order.
pub open spec fn wire_block(b: BlockView) -> Seq<char> {
    "{\"id\":"@ + dec_repr(b.id as nat) + ",\"nonce\":"@ + dec_repr(b.nonce as nat)
        + ",\"timestamp\":"@ + dec_int_repr(b.timestamp as int) + ",\"data\":"@ + wire_string(
        b.data,
    ) + ",\"previous_hash\":"@ + wire_string(b.previous_hash) + ",\"hash\":"@ + wire_string(b.hash)
        + "}"@
}

/// The comma-separated wire forms of a sequence of blocks.
pub open spec fn wire_items(blocks: Seq<BlockView>) -> Seq<char>
    decreases blocks.len(),
{
    if blocks.len() == 0 {
        Seq::empty()
    } else if blocks.len() == 1 {
        wire_block(blocks.first())
    } else {
        wire_block(blocks.first()) + seq![','] + wire_items(blocks.drop_first())
    }
}

/// The wire form of a chain: a JSON array of its blocks.
pub open spec fn wire_blocks(blocks: Seq<BlockView>) -> Seq<char> {
    seq!['['] + wire_items(blocks) + seq![']']
}

/// The wire form of a chain response.
pub open spec fn wire_response(r: ChainResponseView) -> Seq<char> {
    "{\"blocks\":"@ + wire_blocks(r.blocks) + ",\"receiver\":"@ + wire_string(r.receiver) + "}"@
}

/// The wire form of a chain request.
pub open spec fn wire_request(r: LocalChainRequestView) -> Seq<char> {
    "{\"from_peer_id\":"@ + wire_string(r.from_peer_id) + "}"@
}

fn append_wire_string(out: &mut String, s: &str)
    ensures
        final(out)@ == old(out)@ + wire_string(s@),
{
    push_char(out, '"');
    append_json_escaped(out, s);
    push_char(out, '"');
    proof {
        assert(final(out)@ =~= old(out)@ + wire_string(s@));
    }
}

fn append_wire_block(out: &mut String, b: &Block)
    ensures
        final(out)@ == old(out)@ + wire_block(b@),
{
    out.append("{\"id\":");
    let id_dec = u64_to_dec(b.id);
    out.append(id_dec.as_str());
    out.append(",\"nonce\":");
    let nonce_dec = u64_to_dec(b.nonce);
    out.append(nonce_dec.as_str());
    out.append(",\"timestamp\":");
    let ts_dec = i64_to_dec(b.timestamp);
    out.append(ts_dec.as_str());
    out.append(",\"data\":");
    append_wire_string(out, b.data.as_str());
    out.append(",\"previous_hash\":");
    append_wire_string(out, b.previous_hash.as_str());
    out.append(",\"hash\":");
    append_wire_string(out, b.hash.as_str());
    out.append("}");
    proof {
        assert(final(out)@ =~= old(out)@ + wire_block(b@));
    }
}

/// Serializes one block to its wire JSON.
pub fn serialize_block(b: &Block) -> (r: String)
    ensures
        r@ == wire_block(b@),
{
    let mut out = String::new();
    append_wire_block(&mut out, b);
    out
}

proof fn lemma_wire_items_push(blocks: Seq<BlockView>, b: BlockView)
    ensures
        blocks.len() == 0 ==> wire_items(blocks.push(b)) == wire_block(b),
        blocks.len() >= 1 ==> wire_items(blocks.push(b)) == wire_items(blocks) + seq![',']
            + wire_block(b),
    decreases blocks.len(),
{
    if blocks.len() == 0 {
        assert(blocks.push(b).len() == 1);
        assert(blocks.push(b).first() == b);
    } else {
        assert(blocks.push(b).drop_first() =~= blocks.drop_first().push(b));
        assert(blocks.push(b).first() == blocks.first());
        lemma_wire_items_push(blocks.drop_first(), b);
        if blocks.len() == 1 {
            assert(wire_items(blocks.push(b)) =~= wire_items(blocks) + seq![','] + wire_block(b));
        } else {
            assert(wire_items(blocks.push(b)) =~= wire_items(blocks) + seq![','] + wire_block(b));
        }
    }
}

/// Serializes a sequence of blocks to a wire JSON array.
pub fn serialize_blocks(blocks: &Vec<Block>) -> (r: String)
    ensures
        r@ == wire_blocks(blocks.deep_view()),
{
    let mut out = String::new();
    push_char(&mut out, '[');
    let n = blocks.len();
    let mut i: usize = 0;
    while i < n
        invariant
            n == blocks@.len(),
            i <= n,
            out@ == seq!['['] + wire_items(blocks.deep_view().take(i as int)),
        decreases n - i,
    {
        if i > 0 {
            push_char(&mut out, ',');
        }
        append_wire_block(&mut out, &blocks[i]);
        proof {
            let views = blocks.deep_view();
            assert(views.len() == blocks@.len());
            assert(views.take(i + 1 as int) =~= views.take(i as int).push(views[i as int]));
            assert(views[i as int] == blocks@[i as int]@);
            lemma_wire_items_push(views.take(i as int), views[i as int]);
            assert(out@ =~= seq!['['] + wire_items(views.take(i + 1 as int)));
        }
        i = i + 1;
    }
    push_char(&mut out, ']');
    proof {
        assert(blocks.deep_view().take(n as int) =~= blocks.deep_view());
        assert(out@ =~= wire_blocks(blocks.deep_view()));
    }
    out
}

/// Serializes a chain response to its wire JSON.
pub fn serialize_response(r: &ChainResponse) -> (out: String)
    ensures
        out@ == wire_response(r@),
{
    let mut out = String::new();
    out.append("{\"blocks\":");
    let blocks_json = serialize_blocks(&r.blocks);
    out.append(blocks_json.as_str());
    out.append(",\"receiver\":");
    append_wire_string(&mut out, r.receiver.as_str());
    out.append("}");
    proof {
        assert(out@ =~= wire_response(r@));
    }
    out
}

/// Serializes a chain request to its wire JSON.
pub fn serialize_request(r: &LocalChainRequest) -> (out: String)
    ensures
        out@ == wire_request(r@),
{
    let mut out = String::new();
    out.append("{\"from_peer_id\":");
    append_wire_string(&mut out, r.from_peer_id.as_str());
    out.append("}");
    proof {
        assert(out@ =~= wire_request(r@));
    }
    out
}

/// The pretty form of one block, indented as an element of the chain
/// listing: one field per line, two-space indents.
pub open spec fn pretty_block(b: BlockView) -> Seq<char> {
    "  {\n    \"id\": "@ + dec_repr(b.id as nat) + ",\n    \"nonce\": "@ + dec_repr(b.nonce as nat)
        + ",\n    \"timestamp\": "@ + dec_int_repr(b.timestamp as int) + ",\n    \"data\": \""@
        + json_escape(b.data) + "\",\n    \"previous_hash\": \""@ + json_escape(b.previous_hash)
        + "\",\n    \"hash\": \""@ + json_escape(b.hash) + "\"\n  }"@
}

/// The pretty forms of a sequence of blocks, separated by commas and
/// line breaks.
pub open spec fn pretty_items(blocks: Seq<BlockView>) -> Seq<char>
    decreases blocks.len(),
{
    if blocks.len() == 0 {
        Seq::empty()
    } else if blocks.len() == 1 {
        pretty_block(blocks.first())
    } else {
        pretty_block(blocks.first()) + ",\n"@ + pretty_items(blocks.drop_first())
    }
}

/// The pretty form of a chain, for display: a JSON array of its blocks
/// over several lines.
pub open spec fn pretty_blocks(blocks: Seq<BlockView>) -> Seq<char> {
    if blocks.len() == 0 {
        "[]"@
    } else {
        "[\n"@ + pretty_items(blocks) + "\n]"@
    }
}

fn append_pretty_block(out: &mut String, b: &Block)
    ensures
        final(out)@ == old(out)@ + pretty_block(b@),
{
    out.append("  {\n    \"id\": ");
    let id_dec = u64_to_dec(b.id);
    out.append(id_dec.as_str());
    out.append(",\n    \"nonce\": ");
    let nonce_dec = u64_to_dec(b.nonce);
    out.append(nonce_dec.as_str());
    out.append(",\n    \"timestamp\": ");
    let ts_dec = i64_to_dec(b.timestamp);
    out.append(ts_dec.as_str());
    out.append(",\n    \"data\": \"");
    append_json_escaped(out, b.data.as_str());
    out.append("\",\n    \"previous_hash\": \"");
    append_json_escaped(out, b.previous_hash.as_str());
    out.append("\",\n    \"hash\": \"");
    append_json_escaped(out, b.hash.as_str());
    out.append("\"\n  }");
    proof {
        assert(final(out)@ =~= old(out)@ + pretty_block(b@));
    }
}

proof fn lemma_pretty_items_push(blocks: Seq<BlockView>, b: BlockView)
    ensures
        blocks.len() == 0 ==> pretty_items(blocks.push(b)) == pretty_block(b),
        blocks.len() >= 1 ==> pretty_items(blocks.push(b)) == pretty_items(blocks) + ",\n"@
            + pretty_block(b),
    decreases blocks.len(),
{
    if blocks.len() == 0 {
        assert(blocks.push(b).len() == 1);
        assert(blocks.push(b).first() == b);
    } else {
        assert(blocks.push(b).drop_first() =~= blocks.drop_first().push(b));
        assert(blocks.push(b).first() == blocks.first());
        lemma_pretty_items_push(blocks.drop_first(), b);
        assert(pretty_items(blocks.push(b)) =~= pretty_items(blocks) + ",\n"@ + pretty_block(b));
    }
}

/// Serializes a chain to its pretty display form.
pub fn serialize_blocks_pretty(blocks: &Vec<Block>) -> (r: String)
    ensures
        r@ == pretty_blocks(blocks.deep_view()),
{
    if blocks.len() == 0 {
        proof {
            assert(blocks.deep_view().len() == blocks@.len());
        }
        return "[]".to_owned();
    }
    let mut out = String::new();
    out.append("[\n");
    let n = blocks.len();
    let mut i: usize = 0;
    while i < n
        invariant
            n == blocks@.len(),
            i <= n,
            out@ == "[\n"@ + pretty_items(blocks.deep_view().take(i as int)),
        decreases n - i,
    {
        if i > 0 {
            out.append(",\n");
        }
        append_pretty_block(&mut out, &blocks[i]);
        proof {
            let views = blocks.deep_view();
            assert(views.len() == blocks@.len());
            assert(views.take(i + 1 as int) =~= views.take(i as int).push(views[i as int]));
            assert(views[i as int] == blocks@[i as int]@);
            lemma_pretty_items_push(views.take(i as int), views[i as int]);
            assert(out@ =~= "[\n"@ + pretty_items(views.take(i + 1 as int)));
        }
        i = i + 1;
    }
    out.append("\n]");
    proof {
        assert(blocks.deep_view().take(n as int) =~= blocks.deep_view());
        assert(out@ =~= pretty_blocks(blocks.deep_view()));
    }
    out
}

// ------------------------------------------------------------------
// Parsing. Each exec parser returns exactly what its spec counterpart
// describes; the spec parsers accept the canonical shape the
// serializers produce and nothing else.
// ------------------------------------------------------------------

/// The decimal digit characters.
pub open spec fn is_digit_char(c: char) -> bool {
    c == '0' || c == '1' || c == '2' || c == '3' || c == '4' || c == '5' || c == '6' || c == '7'
        || c == '8' || c == '9'
}

/// The value of a decimal digit character.
pub open spec fn digit_val(c: char) -> u64 {
    if c == '0' {
        0
    } else if c == '1' {
        1
    } else if c == '2' {
        2
    } else if c == '3' {
        3
    } else if c == '4' {
        4
    } else if c == '5' {
        5
    } else if c == '6' {
        6
    } else if c == '7' {
        7
    } else if c == '8' {
        8
    } else {
        9
    }
}

/// The character a named escape code stands for.
pub open spec fn unescape_named(e: char) -> char {
    if e == '"' {
        '"'
    } else if e == '\\' {
        '\\'
    } else if e == 'n' {
        '\n'
    } else if e == 'r' {
        '\r'
    } else if e == 't' {
        '\t'
    } else if e == 'b' {
        '\u{8}'
    } else {
        '\u{c}'
    }
}

/// Whether `lit` occurs in `s` at position `i`.
pub open spec fn spec_match_lit(s: Seq<char>, i: nat, lit: Seq<char>) -> bool {
    i + lit.len() <= s.len() && s.subrange(i as int, (i + lit.len()) as int) == lit
}

/// Accumulates a run of decimal digits onto `acc`; fails on overflow.
pub open spec fn spec_u64_digits(s: Seq<char>, i: nat, acc: u64) -> Option<(u64, nat)>
    decreases s.len() - i,
{
    if i >= s.len() || !is_digit_char(s[i as int]) {
        Some((acc, i))
    } else {
        let d = digit_val(s[i as int]);
        if acc > (u64::MAX - d) / 10 {
            None
        } else {
            spec_u64_digits(s, i + 1, (acc * 10 + d) as u64)
        }
    }
}

/// Parses an unsigned decimal number: at least one digit, no leading
/// zeros, value within `u64`.
pub open spec fn spec_parse_u64(s: Seq<char>, i: nat) -> Option<(u64, nat)> {
    if i >= s.len() || !is_digit_char(s[i as int]) {
        None
    } else if s[i as int] == '0' {
        if i + 1 < s.len() && is_digit_char(s[(i + 1) as int]) {
            None
        } else {
            Some((0, i + 1))
        }
    } else {
        spec_u64_digits(s, i, 0)
    }
}

/// Parses a signed decimal number, within `i64`; `-0` is rejected.
pub open spec fn spec_parse_i64(s: Seq<char>, i: nat) -> Option<(i64, nat)> {
    if i < s.len() && s[i as int] == '-' {
        match spec_parse_u64(s, i + 1) {
            Some((m, j)) => if m == 0 || m > 0x8000_0000_0000_0000 {
                None
            } else {
                Some(((-(m as int)) as i64, j))
            },
            None => None,
        }
    } else {
        match spec_parse_u64(s, i) {
            Some((m, j)) => if m > 0x7fff_ffff_ffff_ffff {
                None
            } else {
                Some((m as i64, j))
            },
            None => None,
        }
    }
}

/// The control character a `\u00XX` escape's two hex digits stand
/// for, for the control characters that have no short named escape.
pub open spec fn control_of(h1: char, h2: char) -> Option<char> {
    if h1 == 'x' && h2 == 'x' {
        None
    } else if h1 == '0' && h2 == '0' {
        Some('\u{0}')
    } else if h1 == '0' && h2 == '1' {
        Some('\u{1}')
    } else if h1 == '0' && h2 == '2' {
        Some('\u{2}')
    } else if h1 == '0' && h2 == '3' {
        Some('\u{3}')
    } else if h1 == '0' && h2 == '4' {
        Some('\u{4}')
    } else if h1 == '0' && h2 == '5' {
        Some('\u{5}')
    } else if h1 == '0' && h2 == '6' {
        Some('\u{6}')
    } else if h1 == '0' && h2 == '7' {
        Some('\u{7}')
    } else if h1 == '0' && h2 == 'b' {
        Some('\u{b}')
    } else if h1 == '0' && h2 == 'e' {
        Some('\u{e}')
    } else if h1 == '0' && h2 == 'f' {
        Some('\u{f}')
    } else if h1 == '1' && h2 == '0' {
        Some('\u{10}')
    } else if h1 == '1' && h2 == '1' {
        Some('\u{11}')
    } else if h1 == '1' && h2 == '2' {
        Some('\u{12}')
    } else if h1 == '1' && h2 == '3' {
        Some('\u{13}')
    } else if h1 == '1' && h2 == '4' {
        Some('\u{14}')
    } else if h1 == '1' && h2 == '5' {
        Some('\u{15}')
    } else if h1 == '1' && h2 == '6' {
        Some('\u{16}')
    } else if h1 == '1' && h2 == '7' {
        Some('\u{17}')
    } else if h1 == '1' && h2 == '8' {
        Some('\u{18}')
    } else if h1 == '1' && h2 == '9' {
        Some('\u{19}')
    } else if h1 == '1' && h2 == 'a' {
        Some('\u{1a}')
    } else if h1 == '1' && h2 == 'b' {
        Some('\u{1b}')
    } else if h1 == '1' && h2 == 'c' {
        Some('\u{1c}')
    } else if h1 == '1' && h2 == 'd' {
        Some('\u{1d}')
    } else if h1 == '1' && h2 == 'e' {
        Some('\u{1e}')
    } else if h1 == '1' && h2 == 'f' {
        Some('\u{1f}')
    } else {
        None
    }
}

/// Scans a JSON string body starting after the opening quote, up to and
/// including the closing quote, undoing the escapes of
/// [`crate::json::esc_char`]: the named short escapes, `\u00XX` for
/// the control characters without one, and raw characters other than
/// `"` and `\` taken as themselves.
pub open spec fn spec_scan_string(s: Seq<char>, i: nat) -> Option<(Seq<char>, nat)>
    decreases s.len() - i,
{
    if i >= s.len() {
        None
    } else if s[i as int] == '"' {
        Some((Seq::empty(), i + 1))
    } else if s[i as int] == '\\' {
        if i + 1 >= s.len() {
            None
        } else {
            let e = s[(i + 1) as int];
            if e == '"' || e == '\\' || e == 'n' || e == 'r' || e == 't' || e == 'b' || e == 'f' {
                match spec_scan_string(s, i + 2) {
                    Some((rest, j)) => Some((seq![unescape_named(e)] + rest, j)),
                    None => None,
                }
            } else if e == 'u' {
                if i + 6 <= s.len() && s[(i + 2) as int] == '0' && s[(i + 3) as int] == '0' {
                    match control_of(s[(i + 4) as int], s[(i + 5) as int]) {
                        Some(c0) => match spec_scan_string(s, i + 6) {
                            Some((rest, j)) => Some((seq![c0] + rest, j)),
                            None => None,
                        },
                        None => None,
                    }
                } else {
                    None
                }
            } else {
                None
            }
        }
    } else {
        match spec_scan_string(s, i + 1) {
            Some((rest, j)) => Some((seq![s[i as int]] + rest, j)),
            None => None,
        }
    }
}

/// Parses one block in its wire shape, returning its value and the
/// position after it.
pub open spec fn spec_parse_block(s: Seq<char>, i: nat) -> Option<(BlockView, nat)> {
    if !spec_match_lit(s, i, "{\"id\":"@) {
        None
    } else {
        match spec_parse_u64(s, i + "{\"id\":"@.len()) {
            None => None,
            Some((id, i1)) => if !spec_match_lit(s, i1, ",\"nonce\":"@) {
                None
            } else {
                match spec_parse_u64(s, i1 + ",\"nonce\":"@.len()) {
                    None => None,
                    Some((nonce, i2)) => if !spec_match_lit(s, i2, ",\"timestamp\":"@) {
                        None
                    } else {
                        match spec_parse_i64(s, i2 + ",\"timestamp\":"@.len()) {
                            None => None,
                            Some((timestamp, i3)) => if !spec_match_lit(s, i3, ",\"data\":\""@) {
                                None
                            } else {
                                match spec_scan_string(s, i3 + ",\"data\":\""@.len()) {
                                    None => None,
                                    Some((data, i4)) => if !spec_match_lit(
                                        s,
                                        i4,
                                        ",\"previous_hash\":\""@,
                                    ) {
                                        None
                                    } else {
                                        match spec_scan_string(
                                            s,
                                            i4 + ",\"previous_hash\":\""@.len(),
                                        ) {
                                            None => None,
                                            Some((previous_hash, i5)) => if !spec_match_lit(
                                                s,
                                                i5,
                                                ",\"hash\":\""@,
                                            ) {
                                                None
                                            } else {
                                                match spec_scan_string(
                                                    s,
                                                    i5 + ",\"hash\":\""@.len(),
                                                ) {
                                                    None => None,
                                                    Some((hash, i6)) => if !spec_match_lit(
                                                        s,
                                                        i6,
                                                        "}"@,
                                                    ) {
                                                        None
                                                    } else {
                                                        Some(
                                                            (
                                                                BlockView {
                                                                    id,
                                                                    nonce,
                                                                    timestamp,
                                                                    data,
                                                                    previous_hash,
                                                                    hash,
                                                                },
                                                                i6 + "}"@.len(),
                                                            ),
                                                        )
                                                    },
                                                }
                                            },
                                        }
                                    },
                                }
                            },
                        }
                    },
                }
            },
        }
    }
}

/// Parses the remainder of a block array after at least one block: a
/// `]` closing it, or `,` and another block, repeatedly.
pub open spec fn spec_parse_more(s: Seq<char>, i: nat) -> Option<(Seq<BlockView>, nat)>
    decreases s.len() - i,
{
    if i >= s.len() {
        None
    } else if s[i as int] == ']' {
        Some((Seq::empty(), i + 1))
    } else if s[i as int] == ',' {
        match spec_parse_block(s, i + 1) {
            None => None,
            Some((b, j)) => if i + 1 < j <= s.len() {
                match spec_parse_more(s, j) {
                    Some((rest, k)) => Some((seq![b] + rest, k)),
                    None => None,
                }
            } else {
                None
            },
        }
    } else {
        None
    }
}

/// Parses a block array.
pub open spec fn spec_parse_blocks(s: Seq<char>, i: nat) -> Option<(Seq<BlockView>, nat)> {
    if i >= s.len() || s[i as int] != '[' {
        None
    } else if i + 1 < s.len() && s[(i + 1) as int] == ']' {
        Some((Seq::empty(), i + 2))
    } else {
        match spec_parse_block(s, i + 1) {
            None => None,
            Some((b, j)) => if i + 1 < j <= s.len() {
                match spec_parse_more(s, j) {
                    Some((rest, k)) => Some((seq![b] + rest, k)),
                    None => None,
                }
            } else {
                None
            },
        }
    }
}

/// Parses a chain response in its wire shape.
pub open spec fn spec_parse_response(s: Seq<char>, i: nat) -> Option<(ChainResponseView, nat)> {
    if !spec_match_lit(s, i, "{\"blocks\":"@) {
        None
    } else {
        match spec_parse_blocks(s, i + "{\"blocks\":"@.len()) {
            None => None,
            Some((blocks, i1)) => if !spec_match_lit(s, i1, ",\"receiver\":\""@) {
                None
            } else {
                match spec_scan_string(s, i1 + ",\"receiver\":\""@.len()) {
                    None => None,
                    Some((receiver, i2)) => if !spec_match_lit(s, i2, "}"@) {
                        None
                    } else {
                        Some((ChainResponseView { blocks, receiver }, i2 + "}"@.len()))
                    },
                }
            },
        }
    }
}

/// Parses a chain request in its wire shape.
pub open spec fn spec_parse_request(s: Seq<char>, i: nat) -> Option<(LocalChainRequestView, nat)> {
    if !spec_match_lit(s, i, "{\"from_peer_id\":\""@) {
        None
    } else {
        match spec_scan_string(s, i + "{\"from_peer_id\":\""@.len()) {
            None => None,
            Some((from_peer_id, i1)) => if !spec_match_lit(s, i1, "}"@) {
                None
            } else {
                Some((LocalChainRequestView { from_peer_id }, i1 + "}"@.len()))
            },
        }
    }
}

/// The characters of a text, in order.
pub fn chars_of(s: &str) -> (r: Vec<char>)
    ensures
        r@ == s@,
{
    let n = s.unicode_len();
    let mut r: Vec<char> = Vec::new();
    let mut i: usize = 0;
    while i < n
        invariant
            n == s@.len(),
            i <= n,
            r@ =~= s@.take(i as int),
        decreases n - i,
    {
        r.push(s.get_char(i));
        proof {
            assert(s@.take(i + 1 as int) =~= s@.take(i as int).push(s@[i as int]));
        }
        i = i + 1;
    }
    proof {
        assert(s@.take(n as int) =~= s@);
    }
    r
}

fn match_lit(cs: &Vec<char>, i: usize, lit: &Vec<char>) -> (r: Option<usize>)
    ensures
        r matches Some(j) ==> spec_match_lit(cs@, i as nat, lit@) && j == i + lit@.len(),
        r is None ==> !spec_match_lit(cs@, i as nat, lit@),
{
    if i > cs.len() || lit.len() > cs.len() - i {
        return None;
    }
    let mut j: usize = 0;
    while j < lit.len()
        invariant
            i + lit@.len() <= cs@.len(),
            cs@.len() <= usize::MAX,
            j <= lit@.len(),
            forall|k: int| 0 <= k < j ==> cs@[i + k] == lit@[k],
        decreases lit@.len() - j,
    {
        if cs[i + j] != lit[j] {
            proof {
                assert(cs@.subrange(i as int, i + lit@.len()) != lit@) by {
                    assert(cs@.subrange(i as int, i + lit@.len())[j as int] == cs@[i + j]);
                }
            }
            return None;
        }
        j = j + 1;
    }
    proof {
        assert(cs@.subrange(i as int, i + lit@.len()) =~= lit@);
    }
    Some(i + lit.len())
}

fn is_digit(c: char) -> (r: bool)
    ensures
        r == is_digit_char(c),
{
    c == '0' || c == '1' || c == '2' || c == '3' || c == '4' || c == '5' || c == '6' || c == '7'
        || c == '8' || c == '9'
}

fn digit_val_of(c: char) -> (r: u64)
    requires
        is_digit_char(c),
    ensures
        r == digit_val(c),
{
    if c == '0' {
        0
    } else if c == '1' {
        1
    } else if c == '2' {
        2
    } else if c == '3' {
        3
    } else if c == '4' {
        4
    } else if c == '5' {
        5
    } else if c == '6' {
        6
    } else if c == '7' {
        7
    } else if c == '8' {
        8
    } else {
        9
    }
}

fn parse_u64(cs: &Vec<char>, i: usize) -> (r: Option<(u64, usize)>)
    ensures
        r matches Some((v, j)) ==> spec_parse_u64(cs@, i as nat) == Some((v, j as nat)) && i < j
            <= cs@.len(),
        r is None ==> spec_parse_u64(cs@, i as nat) is None,
{
    if i >= cs.len() || !is_digit(cs[i]) {
        return None;
    }
    if cs[i] == '0' {
        if i + 1 < cs.len() && is_digit(cs[i + 1]) {
            return None;
        }
        return Some((0, i + 1));
    }
    let mut acc: u64 = digit_val_of(cs[i]);
    let mut k: usize = i + 1;
    proof {
        assert(spec_u64_digits(cs@, i as nat, 0) == spec_u64_digits(cs@, k as nat, acc));
    }
    loop
        invariant
            i < k <= cs@.len(),
            spec_parse_u64(cs@, i as nat) == spec_u64_digits(cs@, k as nat, acc),
        decreases cs@.len() - k,
    {
        if k >= cs.len() || !is_digit(cs[k]) {
            return Some((acc, k));
        }
        let d = digit_val_of(cs[k]);
        if acc > (u64::MAX - d) / 10 {
            return None;
        }
        proof {
            assert(acc * 10 + d <= u64::MAX) by (nonlinear_arith)
                requires
                    acc <= (u64::MAX - d) / 10,
                    d <= 9,
            ;
        }
        acc = acc * 10 + d;
        k = k + 1;
    }
}

fn parse_i64(cs: &Vec<char>, i: usize) -> (r: Option<(i64, usize)>)
    ensures
        r matches Some((v, j)) ==> spec_parse_i64(cs@, i as nat) == Some((v, j as nat)) && i < j
            <= cs@.len(),
        r is None ==> spec_parse_i64(cs@, i as nat) is None,
{
    if i < cs.len() && cs[i] == '-' {
        match parse_u64(cs, i + 1) {
            Some((m, j)) => {
                if m == 0 || m > 0x8000_0000_0000_0000 {
                    None
                } else if m == 0x8000_0000_0000_0000 {
                    Some((i64::MIN, j))
                } else {
                    Some((-(m as i64), j))
                }
            },
            None => None,
        }
    } else {
        match parse_u64(cs, i) {
            Some((m, j)) => {
                if m > 0x7fff_ffff_ffff_ffff {
                    None
                } else {
                    Some((m as i64, j))
                }
            },
            None => None,
        }
    }
}

fn unescape_named_of(e: char) -> (r: char)
    ensures
        r == unescape_named(e),
{
    if e == '"' {
        '"'
    } else if e == '\\' {
        '\\'
    } else if e == 'n' {
        '\n'
    } else if e == 'r' {
        '\r'
    } else if e == 't' {
        '\t'
    } else if e == 'b' {
        '\u{8}'
    } else {
        '\u{c}'
    }
}

fn control_char_of(h1: char, h2: char) -> (r: Option<char>)
    ensures
        r == control_of(h1, h2),
{
    if h1 == 'x' && h2 == 'x' {
        None
    } else if h1 == '0' && h2 == '0' {
        Some('\u{0}')
    } else if h1 == '0' && h2 == '1' {
        Some('\u{1}')
    } else if h1 == '0' && h2 == '2' {
        Some('\u{2}')
    } else if h1 == '0' && h2 == '3' {
        Some('\u{3}')
    } else if h1 == '0' && h2 == '4' {
        Some('\u{4}')
    } else if h1 == '0' && h2 == '5' {
        Some('\u{5}')
    } else if h1 == '0' && h2 == '6' {
        Some('\u{6}')
    } else if h1 == '0' && h2 == '7' {
        Some('\u{7}')
    } else if h1 == '0' && h2 == 'b' {
        Some('\u{b}')
    } else if h1 == '0' && h2 == 'e' {
        Some('\u{e}')
    } else if h1 == '0' && h2 == 'f' {
        Some('\u{f}')
    } else if h1 == '1' && h2 == '0' {
        Some('\u{10}')
    } else if h1 == '1' && h2 == '1' {
        Some('\u{11}')
    } else if h1 == '1' && h2 == '2' {
        Some('\u{12}')
    } else if h1 == '1' && h2 == '3' {
        Some('\u{13}')
    } else if h1 == '1' && h2 == '4' {
        Some('\u{14}')
    } else if h1 == '1' && h2 == '5' {
        Some('\u{15}')
    } else if h1 == '1' && h2 == '6' {
        Some('\u{16}')
    } else if h1 == '1' && h2 == '7' {
        Some('\u{17}')
    } else if h1 == '1' && h2 == '8' {
        Some('\u{18}')
    } else if h1 == '1' && h2 == '9' {
        Some('\u{19}')
    } else if h1 == '1' && h2 == 'a' {
        Some('\u{1a}')
    } else if h1 == '1' && h2 == 'b' {
        Some('\u{1b}')
    } else if h1 == '1' && h2 == 'c' {
        Some('\u{1c}')
    } else if h1 == '1' && h2 == 'd' {
        Some('\u{1d}')
    } else if h1 == '1' && h2 == 'e' {
        Some('\u{1e}')
    } else if h1 == '1' && h2 == 'f' {
        Some('\u{1f}')
    } else {
        None
    }
}

fn scan_string(cs: &Vec<char>, i: usize) -> (r: Option<(String, usize)>)
    ensures
        r matches Some((out, j)) ==> spec_scan_string(cs@, i as nat) == Some((out@, j as nat)) && i
            < j <= cs@.len(),
        r is None ==> spec_scan_string(cs@, i as nat) is None,
{
    if i >= cs.len() {
        return None;
    }
    let mut out = String::new();
    let mut k: usize = i;
    loop
        invariant
            i <= k <= cs@.len(),
            match spec_scan_string(cs@, k as nat) {
                Some((rest, j)) => spec_scan_string(cs@, i as nat) == Some((out@ + rest, j)),
                None => spec_scan_string(cs@, i as nat) is None,
            },
        decreases cs@.len() - k,
    {
        if k >= cs.len() {
            return None;
        }
        let c = cs[k];
        if c == '"' {
            proof {
                assert(spec_scan_string(cs@, k as nat) == Some(
                    (Seq::<char>::empty(), (k + 1) as nat),
                ));
                assert(out@ + Seq::<char>::empty() =~= out@);
            }
            return Some((out, k + 1));
        }
        if c == '\\' {
            if k + 1 >= cs.len() {
                return None;
            }
            let e = cs[k + 1];
            if e == '"' || e == '\\' || e == 'n' || e == 'r' || e == 't' || e == 'b' || e == 'f' {
                let ghost old_out = out@;
                push_char(&mut out, unescape_named_of(e));
                proof {
                    match spec_scan_string(cs@, (k + 2) as nat) {
                        Some((rest, j)) => {
                            assert(old_out + (seq![unescape_named(e)] + rest) =~= out@ + rest);
                        },
                        None => {},
                    }
                }
                k = k + 2;
            } else if e == 'u' {
                if cs.len() - k < 6 {
                    return None;
                }
                if !(cs[k + 2] == '0' && cs[k + 3] == '0') {
                    return None;
                }
                let c0 = match control_char_of(cs[k + 4], cs[k + 5]) {
                    Some(c0) => c0,
                    None => {
                        return None;
                    },
                };
                let ghost old_out = out@;
                push_char(&mut out, c0);
                proof {
                    match spec_scan_string(cs@, (k + 6) as nat) {
                        Some((rest, j)) => {
                            assert(old_out + (seq![c0] + rest) =~= out@ + rest);
                        },
                        None => {},
                    }
                }
                k = k + 6;
            } else {
                return None;
            }
        } else {
            let ghost old_out = out@;
            push_char(&mut out, c);
            proof {
                match spec_scan_string(cs@, (k + 1) as nat) {
                    Some((rest, j)) => {
                        assert(old_out + (seq![c] + rest) =~= out@ + rest);
                    },
                    None => {},
                }
            }
            k = k + 1;
        }
    }
}

fn parse_block_at(cs: &Vec<char>, i: usize) -> (r: Option<(Block, usize)>)
    ensures
        r matches Some((b, j)) ==> spec_parse_block(cs@, i as nat) == Some((b@, j as nat)) && i < j
            <= cs@.len(),
        r is None ==> spec_parse_block(cs@, i as nat) is None,
{
    let lit_id = chars_of("{\"id\":");
    let i0 = match match_lit(cs, i, &lit_id) {
        Some(x) => x,
        None => {
            return None;
        },
    };
    let (id, i1) = match parse_u64(cs, i0) {
        Some(x) => x,
        None => {
            return None;
        },
    };
    let lit_nonce = chars_of(",\"nonce\":");
    let i1b = match match_lit(cs, i1, &lit_nonce) {
        Some(x) => x,
        None => {
            return None;
        },
    };
    let (nonce, i2) = match parse_u64(cs, i1b) {
        Some(x) => x,
        None => {
            return None;
        },
    };
    let lit_ts = chars_of(",\"timestamp\":");
    let i2b = match match_lit(cs, i2, &lit_ts) {
        Some(x) => x,
        None => {
            return None;
        },
    };
    let (timestamp, i3) = match parse_i64(cs, i2b) {
        Some(x) => x,
        None => {
            return None;
        },
    };
    let lit_data = chars_of(",\"data\":\"");
    let i3b = match match_lit(cs, i3, &lit_data) {
        Some(x) => x,
        None => {
            return None;
        },
    };
    let (data, i4) = match scan_string(cs, i3b) {
        Some(x) => x,
        None => {
            return None;
        },
    };
    let lit_prev = chars_of(",\"previous_hash\":\"");
    let i4b = match match_lit(cs, i4, &lit_prev) {
        Some(x) => x,
        None => {
            return None;
        },
    };
    let (previous_hash, i5) = match scan_string(cs, i4b) {
        Some(x) => x,
        None => {
            return None;
        },
    };
    let lit_hash = chars_of(",\"hash\":\"");
    let i5b = match match_lit(cs, i5, &lit_hash) {
        Some(x) => x,
        None => {
            return None;
        },
    };
    let (hash, i6) = match scan_string(cs, i5b) {
        Some(x) => x,
        None => {
            return None;
        },
    };
    let lit_close = chars_of("}");
    let j = match match_lit(cs, i6, &lit_close) {
        Some(x) => x,
        None => {
            return None;
        },
    };
    Some((Block { id, nonce, timestamp, data, previous_hash, hash }, j))
}

fn parse_blocks_at(cs: &Vec<char>, i: usize) -> (r: Option<(Vec<Block>, usize)>)
    ensures
        r matches Some((blocks, j)) ==> spec_parse_blocks(cs@, i as nat) == Some(
            (blocks.deep_view(), j as nat),
        ) && i < j <= cs@.len(),
        r is None ==> spec_parse_blocks(cs@, i as nat) is None,
{
    if i >= cs.len() || cs[i] != '[' {
        return None;
    }
    if i + 1 < cs.len() && cs[i + 1] == ']' {
        let empty: Vec<Block> = Vec::new();
        proof {
            assert(empty.deep_view() =~= Seq::<BlockView>::empty());
        }
        return Some((empty, i + 2));
    }
    let (first, mut k) = match parse_block_at(cs, i + 1) {
        Some(x) => x,
        None => {
            return None;
        },
    };
    let mut out: Vec<Block> = Vec::new();
    let ghost first_view = first@;
    out.push(first);
    proof {
        assert(out.deep_view() =~= seq![first_view]);
    }
    loop
        invariant
            i < k <= cs@.len(),
            out.deep_view().len() >= 1,
            match spec_parse_more(cs@, k as nat) {
                Some((rest, j)) => spec_parse_blocks(cs@, i as nat) == Some(
                    (out.deep_view() + rest, j),
                ),
                None => spec_parse_blocks(cs@, i as nat) is None,
            },
        decreases cs@.len() - k,
    {
        if k >= cs.len() {
            return None;
        }
        if cs[k] == ']' {
            proof {
                assert(out.deep_view() + Seq::<BlockView>::empty() =~= out.deep_view());
            }
            return Some((out, k + 1));
        }
        if cs[k] != ',' {
            return None;
        }
        match parse_block_at(cs, k + 1) {
            Some((b, j2)) => {
                let ghost old_dv = out.deep_view();
                let ghost b_view = b@;
                out.push(b);
                proof {
                    assert(out.deep_view() =~= old_dv.push(b_view));
                    match spec_parse_more(cs@, j2 as nat) {
                        Some((rest, j3)) => {
                            assert(old_dv + (seq![b_view] + rest) =~= out.deep_view() + rest);
                        },
                        None => {},
                    }
                }
                k = j2;
            },
            None => {
                return None;
            },
        }
    }
}

fn parse_response_at(cs: &Vec<char>, i: usize) -> (r: Option<(ChainResponse, usize)>)
    ensures
        r matches Some((resp, j)) ==> spec_parse_response(cs@, i as nat) == Some(
            (resp@, j as nat),
        ) && i < j <= cs@.len(),
        r is None ==> spec_parse_response(cs@, i as nat) is None,
{
    let lit_blocks = chars_of("{\"blocks\":");
    let i0 = match match_lit(cs, i, &lit_blocks) {
        Some(x) => x,
        None => {
            return None;
        },
    };
    let (blocks, i1) = match parse_blocks_at(cs, i0) {
        Some(x) => x,
        None => {
            return None;
        },
    };
    let lit_recv = chars_of(",\"receiver\":\"");
    let i1b = match match_lit(cs, i1, &lit_recv) {
        Some(x) => x,
        None => {
            return None;
        },
    };
    let (receiver, i2) = match scan_string(cs, i1b) {
        Some(x) => x,
        None => {
            return None;
        },
    };
    let lit_close = chars_of("}");
    let j = match match_lit(cs, i2, &lit_close) {
        Some(x) => x,
        None => {
            return None;
        },
    };
    Some((ChainResponse { blocks, receiver }, j))
}

fn parse_request_at(cs: &Vec<char>, i: usize) -> (r: Option<(LocalChainRequest, usize)>)
    ensures
        r matches Some((req, j)) ==> spec_parse_request(cs@, i as nat) == Some((req@, j as nat))
            && i < j <= cs@.len(),
        r is None ==> spec_parse_request(cs@, i as nat) is None,
{
    let lit_from = chars_of("{\"from_peer_id\":\"");
    let i0 = match match_lit(cs, i, &lit_from) {
        Some(x) => x,
        None => {
            return None;
        },
    };
    let (from_peer_id, i1) = match scan_string(cs, i0) {
        Some(x) => x,
        None => {
            return None;
        },
    };
    let lit_close = chars_of("}");
    let j = match match_lit(cs, i1, &lit_close) {
        Some(x) => x,
        None => {
            return None;
        },
    };
    Some((LocalChainRequest { from_peer_id }, j))
}

/// Parses a whole text as one wire block.
pub fn parse_block(s: &str) -> (r: Option<Block>)
    ensures
        r matches Some(b) ==> spec_block_text(s@) == Some(b@),
        r is None ==> spec_block_text(s@) is None,
{
    let cs = chars_of(s);
    match parse_block_at(&cs, 0) {
        Some((b, j)) => {
            if j == cs.len() {
                Some(b)
            } else {
                None
            }
        },
        None => None,
    }
}

/// Parses a whole text as a wire chain response.
pub fn parse_response(s: &str) -> (r: Option<ChainResponse>)
    ensures
        r matches Some(resp) ==> spec_response_text(s@) == Some(resp@),
        r is None ==> spec_response_text(s@) is None,
{
    let cs = chars_of(s);
    match parse_response_at(&cs, 0) {
        Some((resp, j)) => {
            if j == cs.len() {
                Some(resp)
            } else {
                None
            }
        },
        None => None,
    }
}

/// Parses a whole text as a wire chain request.
pub fn parse_request(s: &str) -> (r: Option<LocalChainRequest>)
    ensures
        r matches Some(req) ==> spec_request_text(s@) == Some(req@),
        r is None ==> spec_request_text(s@) is None,
{
    let cs = chars_of(s);
    match parse_request_at(&cs, 0) {
        Some((req, j)) => {
            if j == cs.len() {
                Some(req)
            } else {
                None
            }
        },
        None => None,
    }
}

/// The wire text that follows the first block of an array: for each
/// further block a comma and its wire form, then the closing bracket.
spec fn wire_more(blocks: Seq<BlockView>) -> Seq<char>
    decreases blocks.len(),
{
    if blocks.len() == 0 {
        seq![']']
    } else {
        seq![','] + wire_block(blocks.first()) + wire_more(blocks.drop_first())
    }
}

proof fn lemma_items_more(blocks: Seq<BlockView>)
    requires
        blocks.len() >= 1,
    ensures
        wire_items(blocks) + seq![']'] == wire_block(blocks.first()) + wire_more(
            blocks.drop_first(),
        ),
    decreases blocks.len(),
{
    if blocks.len() == 1 {
        assert(wire_items(blocks) + seq![']'] =~= wire_block(blocks.first()) + wire_more(
            blocks.drop_first(),
        ));
    } else {
        lemma_items_more(blocks.drop_first());
        assert(wire_items(blocks) + seq![']'] =~= wire_block(blocks.first()) + (seq![',']
            + (wire_items(blocks.drop_first()) + seq![']'])));
        assert(wire_block(blocks.first()) + (seq![','] + (wire_items(blocks.drop_first())
            + seq![']'])) =~= wire_block(blocks.first()) + wire_more(blocks.drop_first()));
    }
}

proof fn lemma_parse_more_round(s: Seq<char>, i: nat, blocks: Seq<BlockView>, rest: Seq<char>)
    requires
        i <= s.len(),
        s.skip(i as int) == wire_more(blocks) + rest,
    ensures
        spec_parse_more(s, i) == Some((blocks, (i + wire_more(blocks).len()) as nat)),
    decreases blocks.len(),
{
    assert(s.skip(i as int).len() == wire_more(blocks).len() + rest.len());
    assert(s[i as int] == s.skip(i as int)[0]);
    if blocks.len() == 0 {
        assert(s[i as int] == ']');
        assert(blocks =~= Seq::<BlockView>::empty());
    } else {
        assert(s[i as int] == ',');
        let b0 = blocks.first();
        let tail = wire_more(blocks.drop_first()) + rest;
        assert(s.skip((i + 1) as int) == wire_block(b0) + tail) by {
            assert(wire_more(blocks) + rest =~= seq![','] + (wire_block(b0) + tail));
            lemma_skip_concat(s, i, seq![','], wire_block(b0) + tail);
        }
        lemma_parse_block_round(s, i + 1, b0, tail);
        let j = (i + 1 + wire_block(b0).len()) as nat;
        lemma_skip_concat(s, i + 1, wire_block(b0), tail);
        lemma_parse_more_round(s, j, blocks.drop_first(), rest);
        assert(seq![b0] + blocks.drop_first() =~= blocks);
    }
}

#[verifier::rlimit(100)]
#[verifier::spinoff_prover]
proof fn lemma_parse_blocks_round(s: Seq<char>, i: nat, blocks: Seq<BlockView>, rest: Seq<char>)
    requires
        i <= s.len(),
        s.skip(i as int) == wire_blocks(blocks) + rest,
    ensures
        spec_parse_blocks(s, i) == Some((blocks, (i + wire_blocks(blocks).len()) as nat)),
{
    assert(s.skip(i as int).len() == wire_blocks(blocks).len() + rest.len());
    assert(s[i as int] == s.skip(i as int)[0]);
    assert(s[i as int] == '[');
    if blocks.len() == 0 {
        assert(wire_blocks(blocks) =~= seq!['[', ']']);
        assert(s[(i + 1) as int] == s.skip(i as int)[1]);
        assert(s[(i + 1) as int] == ']');
        assert(blocks =~= Seq::<BlockView>::empty());
    } else {
        let b0 = blocks.first();
        let tail = wire_more(blocks.drop_first()) + rest;
        assert(s.skip((i + 1) as int) == wire_block(b0) + tail) by {
            assert(wire_blocks(blocks) + rest =~= seq!['['] + (wire_items(blocks) + seq![']']
                + rest));
            lemma_skip_concat(s, i, seq!['['], wire_items(blocks) + seq![']'] + rest);
            lemma_items_more(blocks);
            assert(wire_items(blocks) + seq![']'] + rest =~= wire_block(b0) + tail);
        }
        assert(s[(i + 1) as int] == s.skip((i + 1) as int)[0]);
        assert(s[(i + 1) as int] == wire_block(b0)[0]);
        assert(wire_block(b0)[0] == '{') by {
            reveal_strlit("{\"id\":");
        }
        lemma_parse_block_round(s, i + 1, b0, tail);
        let j = (i + 1 + wire_block(b0).len()) as nat;
        lemma_skip_concat(s, i + 1, wire_block(b0), tail);
        lemma_parse_more_round(s, j, blocks.drop_first(), rest);
        assert(seq![b0] + blocks.drop_first() =~= blocks);
        assert(wire_blocks(blocks).len() == 1 + wire_block(b0).len() + wire_more(
            blocks.drop_first(),
        ).len()) by {
            lemma_items_more(blocks);
            assert((wire_items(blocks) + seq![']']).len() == wire_items(blocks).len() + 1);
        }
    }
}

/// Parsing undoes serializing for a whole block text.
pub proof fn lemma_block_text_round_trip(b: BlockView)
    ensures
        spec_block_text(wire_block(b)) == Some(b),
{
    let s = wire_block(b);
    assert(s.skip(0) =~= s + Seq::<char>::empty());
    lemma_parse_block_round(s, 0, b, Seq::empty());
}

/// Parsing undoes serializing for a whole chain (a block array).
pub proof fn lemma_blocks_round_trip(blocks: Seq<BlockView>)
    ensures
        spec_parse_blocks(wire_blocks(blocks), 0) == Some(
            (blocks, wire_blocks(blocks).len() as nat),
        ),
{
    let s = wire_blocks(blocks);
    assert(s.skip(0) =~= s + Seq::<char>::empty());
    lemma_parse_blocks_round(s, 0, blocks, Seq::empty());
}

/// Parsing undoes serializing for a whole chain-response text.
#[verifier::rlimit(100)]
#[verifier::spinoff_prover]
pub proof fn lemma_response_text_round_trip(v: ChainResponseView)
    ensures
        spec_response_text(wire_response(v)) == Some(v),
{
    let s = wire_response(v);
    reveal_strlit("{\"blocks\":");
    reveal_strlit(",\"receiver\":");
    reveal_strlit(",\"receiver\":\"");
    reveal_strlit("}");
    let q = seq!['"'];
    let se = json_escape(v.receiver);
    let t2 = "}"@;
    let t1b = ",\"receiver\":\""@ + (se + (q + t2));
    let t1 = wire_blocks(v.blocks) + t1b;
    assert(s.skip(0) =~= "{\"blocks\":"@ + t1);
    lemma_match_lit_concat(s, 0, "{\"blocks\":"@, t1);
    let i0 = "{\"blocks\":"@.len();
    lemma_parse_blocks_round(s, i0, v.blocks, t1b);
    lemma_skip_concat(s, i0, wire_blocks(v.blocks), t1b);
    let i1 = (i0 + wire_blocks(v.blocks).len()) as nat;
    lemma_match_lit_concat(s, i1, ",\"receiver\":\""@, se + (q + t2));
    let i1b = (i1 + ",\"receiver\":\""@.len()) as nat;
    assert(s.skip(i1b as int) =~= se + q + t2);
    lemma_scan_escape(s, i1b, v.receiver, t2);
    let i2 = (i1b + se.len() + 1) as nat;
    assert(s.skip(i2 as int) == t2) by {
        lemma_skip_concat(s, i1b, se + q, t2);
        assert(se + q + t2 =~= (se + q) + t2);
    }
    lemma_match_lit_concat(s, i2, "}"@, Seq::empty());
    assert(s.len() == i2 + "}"@.len()) by {
        assert(s.skip(i2 as int).len() == t2.len());
    }
    assert(spec_parse_response(s, 0) == Some(
        (ChainResponseView { blocks: v.blocks, receiver: v.receiver }, s.len() as nat),
    ));
    assert(ChainResponseView { blocks: v.blocks, receiver: v.receiver } == v);
}

/// Parsing undoes serializing for a whole chain-request text.
pub proof fn lemma_request_text_round_trip(v: LocalChainRequestView)
    ensures
        spec_request_text(wire_request(v)) == Some(v),
{
    let s = wire_request(v);
    reveal_strlit("{\"from_peer_id\":");
    reveal_strlit("{\"from_peer_id\":\"");
    reveal_strlit("}");
    let q = seq!['"'];
    let se = json_escape(v.from_peer_id);
    let t2 = "}"@;
    let t1 = se + (q + t2);
    assert(s.skip(0) =~= "{\"from_peer_id\":\""@ + t1);
    lemma_match_lit_concat(s, 0, "{\"from_peer_id\":\""@, t1);
    let i0 = "{\"from_peer_id\":\""@.len();
    assert(s.skip(i0 as int) =~= se + q + t2);
    lemma_scan_escape(s, i0 as nat, v.from_peer_id, t2);
    let i1 = (i0 + se.len() + 1) as nat;
    assert(s.skip(i1 as int) == t2) by {
        lemma_skip_concat(s, i0 as nat, se + q, t2);
        assert(se + q + t2 =~= (se + q) + t2);
    }
    lemma_match_lit_concat(s, i1, "}"@, Seq::empty());
    assert(s.len() == i1 + "}"@.len()) by {
        assert(s.skip(i1 as int).len() == t2.len());
    }
    assert(spec_parse_request(s, 0) == Some(
        (LocalChainRequestView { from_peer_id: v.from_peer_id }, s.len() as nat),
    ));
    assert(LocalChainRequestView { from_peer_id: v.from_peer_id } == v);
}

/// A whole text parses as a block when the block's wire shape spans it
/// exactly.
pub open spec fn spec_block_text(s: Seq<char>) -> Option<BlockView> {
    match spec_parse_block(s, 0) {
        Some((v, j)) => if j == s.len() {
            Some(v)
        } else {
            None
        },
        None => None,
    }
}

/// A whole text parses as a chain response when its wire shape spans it
/// exactly.
pub open spec fn spec_response_text(s: Seq<char>) -> Option<ChainResponseView> {
    match spec_parse_response(s, 0) {
        Some((v, j)) => if j == s.len() {
            Some(v)
        } else {
            None
        },
        None => None,
    }
}

/// A whole text parses as a chain request when its wire shape spans it
/// exactly.
pub open spec fn spec_request_text(s: Seq<char>) -> Option<LocalChainRequestView> {
    match spec_parse_request(s, 0) {
        Some((v, j)) => if j == s.len() {
            Some(v)
        } else {
            None
        },
        None => None,
    }
}

// ------------------------------------------------------------------
// Round trip: parsing undoes serializing. The lemmas below show that
// each spec parser, run on the wire form of a value followed by any
// remainder, returns exactly that value and stops exactly after it.
// ------------------------------------------------------------------

/// Powers of ten.
pub open spec fn pow10(k: nat) -> int
    decreases k,
{
    if k == 0 {
        1
    } else {
        10 * pow10((k - 1) as nat)
    }
}

/// Stepwise bound: accumulating these digits onto `a` never leaves
/// `u64`.
pub open spec fn digits_ok(a: int, ds: Seq<char>) -> bool
    decreases ds.len(),
{
    if ds.len() == 0 {
        true
    } else {
        &&& is_digit_char(ds[0])
        &&& a * 10 + digit_val(ds[0]) <= u64::MAX
        &&& digits_ok(a * 10 + digit_val(ds[0]), ds.drop_first())
    }
}

/// The value of these digits accumulated onto `a`.
pub open spec fn digits_fold(a: int, ds: Seq<char>) -> int
    decreases ds.len(),
{
    if ds.len() == 0 {
        a
    } else {
        digits_fold(a * 10 + digit_val(ds[0]), ds.drop_first())
    }
}

proof fn lemma_digits_snoc(a: int, ds: Seq<char>, c: char)
    ensures
        digits_fold(a, ds.push(c)) == digits_fold(a, ds) * 10 + digit_val(c),
        digits_ok(a, ds.push(c)) == (digits_ok(a, ds) && is_digit_char(c) && digits_fold(a, ds)
            * 10 + digit_val(c) <= u64::MAX),
    decreases ds.len(),
{
    if ds.len() == 0 {
        assert(ds.push(c).drop_first() =~= Seq::<char>::empty());
        assert(ds.push(c)[0] == c);
        assert(digits_fold(a, ds.push(c)) == digits_fold(a * 10 + digit_val(c), Seq::empty()));
        assert(digits_ok(a * 10 + digit_val(c), Seq::<char>::empty()));
        assert(digits_ok(a, ds.push(c)) == (is_digit_char(c) && a * 10 + digit_val(c)
            <= u64::MAX));
        assert(digits_ok(a, ds) && digits_fold(a, ds) == a);
    } else {
        assert(ds.push(c).drop_first() =~= ds.drop_first().push(c));
        assert(ds.push(c)[0] == ds[0]);
        lemma_digits_snoc(a * 10 + digit_val(ds[0]), ds.drop_first(), c);
    }
}

proof fn lemma_dec_repr_digits(n: nat)
    ensures
        dec_repr(n).len() >= 1,
        forall|k: int| 0 <= k < dec_repr(n).len() ==> is_digit_char(#[trigger] dec_repr(n)[k]),
        n > 0 ==> dec_repr(n)[0] != '0',
        n == 0 ==> dec_repr(n) == seq!['0'],
    decreases n,
{
    if n < 10 {
        assert(dec_repr(n) == seq![digit_char(n)]);
        assert(dec_repr(n)[0] == digit_char(n));
        if n == 0 {
            assert(dec_repr(n) =~= seq!['0']);
        }
    } else {
        lemma_dec_repr_digits(n / 10);
        assert(dec_repr(n) == dec_repr(n / 10).push(digit_char(n % 10)));
        assert(dec_repr(n)[0] == dec_repr(n / 10)[0]);
        assert forall|k: int| 0 <= k < dec_repr(n).len() implies is_digit_char(
            #[trigger] dec_repr(n)[k],
        ) by {
            if k < dec_repr(n / 10).len() {
                assert(dec_repr(n)[k] == dec_repr(n / 10)[k]);
            } else {
                assert(dec_repr(n)[k] == digit_char(n % 10));
            }
        }
    }
}

proof fn lemma_fold_of_dec_repr(a: int, n: nat)
    requires
        a >= 0,
        n <= u64::MAX,
        a * pow10(dec_repr(n).len() as nat) + n <= u64::MAX,
    ensures
        digits_fold(a, dec_repr(n)) == a * pow10(dec_repr(n).len() as nat) + n,
        digits_ok(a, dec_repr(n)),
    decreases n,
{
    lemma_dec_repr_digits(n);
    if n < 10 {
        assert(dec_repr(n) == seq![digit_char(n)]);
        assert(pow10(0) == 1);
        assert(pow10(1) == 10);
        assert(digit_val(digit_char(n)) == n);
        assert(seq![digit_char(n)].drop_first() =~= Seq::<char>::empty());
        assert(seq![digit_char(n)][0] == digit_char(n));
        assert(digits_fold(a, seq![digit_char(n)]) == digits_fold(
            a * 10 + digit_val(digit_char(n)),
            seq![digit_char(n)].drop_first(),
        ));
        assert(digits_fold(a, dec_repr(n)) == a * 10 + n);
        assert(digits_ok(a * 10 + digit_val(digit_char(n)), Seq::<char>::empty()));
        assert(digits_ok(a, dec_repr(n)) == (is_digit_char(digit_char(n)) && a * 10 + digit_val(
            digit_char(n),
        ) <= u64::MAX && digits_ok(a * 10 + digit_val(digit_char(n)), dec_repr(n).drop_first())));
    } else {
        let len = dec_repr(n).len() as nat;
        let prev = dec_repr(n / 10);
        assert(dec_repr(n) == prev.push(digit_char(n % 10)));
        assert(prev.len() + 1 == len);
        assert(pow10(len) == 10 * pow10((len - 1) as nat));
        assert(n / 10 * 10 + n % 10 == n);
        assert(a * pow10((len - 1) as nat) + n / 10 <= u64::MAX) by (nonlinear_arith)
            requires
                a >= 0,
                pow10(len) == 10 * pow10((len - 1) as nat),
                a * pow10(len) + n <= u64::MAX,
                n / 10 * 10 + n % 10 == n,
                0 <= n % 10 <= 9,
                n >= 10,
        ;
        lemma_fold_of_dec_repr(a, n / 10);
        lemma_digits_snoc(a, prev, digit_char(n % 10));
        assert(digit_val(digit_char(n % 10)) == n % 10);
        assert(digits_fold(a, prev) == a * pow10((len - 1) as nat) + n / 10);
        assert(digits_fold(a, dec_repr(n)) == (a * pow10((len - 1) as nat) + n / 10) * 10 + n % 10);
        assert((a * pow10((len - 1) as nat) + n / 10) * 10 + n % 10 == a * pow10(len) + n) by (nonlinear_arith)
            requires
                pow10(len) == 10 * pow10((len - 1) as nat),
                n / 10 * 10 + n % 10 == n,
        ;
    }
}

proof fn lemma_u64_digits_run(s: Seq<char>, i: nat, a: u64, ds: Seq<char>, rest: Seq<char>)
    requires
        i <= s.len(),
        s.skip(i as int) == ds + rest,
        rest.len() == 0 || !is_digit_char(rest[0]),
        digits_ok(a as int, ds),
    ensures
        spec_u64_digits(s, i, a) == Some((digits_fold(a as int, ds) as u64, (i + ds.len()) as nat)),
    decreases ds.len(),
{
    assert(s.len() - i == ds.len() + rest.len()) by {
        assert(s.skip(i as int).len() == ds.len() + rest.len());
    }
    if ds.len() == 0 {
        if i < s.len() {
            assert(s[i as int] == s.skip(i as int)[0]);
            assert(s[i as int] == rest[0]);
        }
    } else {
        assert(s[i as int] == s.skip(i as int)[0]);
        assert(s[i as int] == ds[0]);
        let d = digit_val(ds[0]);
        assert(a as int * 10 + d <= u64::MAX);
        assert(!(a > (u64::MAX - d) / 10)) by (nonlinear_arith)
            requires
                a as int * 10 + d <= u64::MAX,
                0 <= d <= 9,
                a >= 0,
        ;
        assert(s.skip((i + 1) as int) =~= ds.drop_first() + rest) by {
            assert forall|k: int| 0 <= k < s.skip((i + 1) as int).len() implies s.skip(
                (i + 1) as int,
            )[k] == (ds.drop_first() + rest)[k] by {
                assert(s.skip((i + 1) as int)[k] == s[i + 1 + k]);
                assert(s.skip(i as int)[k + 1] == s[i + 1 + k]);
                assert(s.skip(i as int)[k + 1] == (ds + rest)[k + 1]);
            }
        }
        lemma_u64_digits_run(s, i + 1, (a * 10 + d) as u64, ds.drop_first(), rest);
    }
}

proof fn lemma_parse_u64_round(s: Seq<char>, i: nat, n: u64, rest: Seq<char>)
    requires
        i <= s.len(),
        s.skip(i as int) == dec_repr(n as nat) + rest,
        rest.len() == 0 || !is_digit_char(rest[0]),
    ensures
        spec_parse_u64(s, i) == Some((n, (i + dec_repr(n as nat).len()) as nat)),
{
    lemma_dec_repr_digits(n as nat);
    assert(s.len() - i == dec_repr(n as nat).len() + rest.len()) by {
        assert(s.skip(i as int).len() == dec_repr(n as nat).len() + rest.len());
    }
    assert(s[i as int] == s.skip(i as int)[0]);
    assert(s[i as int] == dec_repr(n as nat)[0]);
    if n == 0 {
        assert(dec_repr(0) == seq!['0']);
        assert(s[i as int] == '0');
        if i + 1 < s.len() {
            assert(s[(i + 1) as int] == s.skip(i as int)[1]);
            assert(s[(i + 1) as int] == rest[0]);
        }
    } else {
        assert(s[i as int] != '0');
        assert(pow10(dec_repr(n as nat).len() as nat) >= 1) by {
            lemma_pow10_pos(dec_repr(n as nat).len() as nat);
        }
        lemma_fold_of_dec_repr(0, n as nat);
        lemma_u64_digits_run(s, i, 0, dec_repr(n as nat), rest);
    }
}

proof fn lemma_pow10_pos(k: nat)
    ensures
        pow10(k) >= 1,
    decreases k,
{
    if k > 0 {
        lemma_pow10_pos((k - 1) as nat);
    }
}

/// What a text that begins with `pre` looks like after `pre`.
proof fn lemma_skip_concat(s: Seq<char>, i: nat, pre: Seq<char>, suf: Seq<char>)
    requires
        i <= s.len(),
        s.skip(i as int) == pre + suf,
    ensures
        i + pre.len() <= s.len(),
        s.skip((i + pre.len()) as int) == suf,
{
    assert(s.len() - i == pre.len() + suf.len()) by {
        assert(s.skip(i as int).len() == pre.len() + suf.len());
    }
    assert(s.skip((i + pre.len()) as int) =~= suf) by {
        assert forall|k: int| 0 <= k < suf.len() implies s.skip((i + pre.len()) as int)[k]
            == suf[k] by {
            assert(s.skip((i + pre.len()) as int)[k] == s[i + pre.len() + k]);
            assert(s.skip(i as int)[pre.len() + k] == s[i + pre.len() + k]);
            assert(s.skip(i as int)[pre.len() + k] == (pre + suf)[pre.len() + k]);
        }
    }
}

/// A literal at the head of the remainder matches.
proof fn lemma_match_lit_concat(s: Seq<char>, i: nat, lit: Seq<char>, suf: Seq<char>)
    requires
        i <= s.len(),
        s.skip(i as int) == lit + suf,
    ensures
        spec_match_lit(s, i, lit),
        i + lit.len() <= s.len(),
        s.skip((i + lit.len()) as int) == suf,
{
    lemma_skip_concat(s, i, lit, suf);
    assert(s.subrange(i as int, (i + lit.len()) as int) =~= lit) by {
        assert forall|k: int| 0 <= k < lit.len() implies s.subrange(
            i as int,
            (i + lit.len()) as int,
        )[k] == lit[k] by {
            assert(s.subrange(i as int, (i + lit.len()) as int)[k] == s[i + k]);
            assert(s.skip(i as int)[k] == s[i + k]);
            assert(s.skip(i as int)[k] == (lit + suf)[k]);
        }
    }
}

/// Scanning the escaped form of `d`, a closing quote, and anything
/// after recovers exactly `d` and stops after the quote.
proof fn lemma_scan_escape(s: Seq<char>, i: nat, d: Seq<char>, rest: Seq<char>)
    requires
        i <= s.len(),
        s.skip(i as int) == json_escape(d) + seq!['"'] + rest,
    ensures
        spec_scan_string(s, i) == Some((d, (i + json_escape(d).len() + 1) as nat)),
    decreases d.len(),
{
    assert(s.skip(i as int).len() == s.len() - i);
    assert((json_escape(d) + seq!['"'] + rest).len() == json_escape(d).len() + 1 + rest.len());
    assert(s.len() - i == json_escape(d).len() + 1 + rest.len());
    if d.len() == 0 {
        assert(json_escape(d) == Seq::<char>::empty());
        assert(s[i as int] == s.skip(i as int)[0]);
        assert(s[i as int] == '"');
        assert(d =~= Seq::<char>::empty());
    } else {
        let c = d.first();
        let e = esc_char(c);
        let tail_d = d.drop_first();
        assert(json_escape(d) == e + json_escape(tail_d));
        let suf = json_escape(tail_d) + seq!['"'] + rest;
        assert(s.skip(i as int) == e + suf) by {
            assert(e + json_escape(tail_d) + seq!['"'] + rest =~= e + suf);
        }
        lemma_skip_concat(s, i, e, suf);
        lemma_scan_escape(s, (i + e.len()) as nat, tail_d, rest);
        assert(seq![c] + tail_d =~= d);
        assert forall|k: int| 0 <= k < e.len() implies s[i + k] == e[k] by {
            assert(s.skip(i as int)[k] == s[i + k]);
            assert(s.skip(i as int)[k] == (e + suf)[k]);
        }
        if c == '"' || c == '\\' {
            assert(e == seq!['\\', if c == '"' { '"' } else { '\\' }]);
            assert(s[i as int] == '\\' && s[(i + 1) as int] == e[1]);
            assert(unescape_named(e[1]) == c);
        } else if c == '\u{8}' {
            assert(s[i as int] == '\\' && s[(i + 1) as int] == 'b');
            assert(unescape_named('b') == c);
        } else if c == '\t' {
            assert(s[i as int] == '\\' && s[(i + 1) as int] == 't');
            assert(unescape_named('t') == c);
        } else if c == '\n' {
            assert(s[i as int] == '\\' && s[(i + 1) as int] == 'n');
            assert(unescape_named('n') == c);
        } else if c == '\u{c}' {
            assert(s[i as int] == '\\' && s[(i + 1) as int] == 'f');
            assert(unescape_named('f') == c);
        } else if c == '\r' {
            assert(s[i as int] == '\\' && s[(i + 1) as int] == 'r');
            assert(unescape_named('r') == c);
        } else if e.len() == 6 {
            assert(s[i as int] == '\\' && s[(i + 1) as int] == 'u');
            assert(s[(i + 2) as int] == '0' && s[(i + 3) as int] == '0');
            assert(s[(i + 4) as int] == e[4] && s[(i + 5) as int] == e[5]);
            assert(control_of(e[4], e[5]) == Some(c));
        } else {
            assert(e == seq![c]);
            assert(s[i as int] == c);
            assert(c != '"' && c != '\\');
        }
    }
}

/// Parsing the wire form of a block at its position recovers exactly
/// the block's value.
#[verifier::rlimit(100)]
#[verifier::spinoff_prover]
proof fn lemma_parse_block_round(s: Seq<char>, i: nat, b: BlockView, rest: Seq<char>)
    requires
        i <= s.len(),
        s.skip(i as int) == wire_block(b) + rest,
    ensures
        spec_parse_block(s, i) == Some((b, (i + wire_block(b).len()) as nat)),
        wire_block(b).len() >= 1,
{
    let d1 = dec_repr(b.id as nat);
    let d2 = dec_repr(b.nonce as nat);
    let d3 = dec_int_repr(b.timestamp as int);
    let s1 = json_escape(b.data);
    let s2 = json_escape(b.previous_hash);
    let s3 = json_escape(b.hash);
    let q = seq!['"'];
    reveal_strlit("{\"id\":");
    reveal_strlit(",\"nonce\":");
    reveal_strlit(",\"timestamp\":");
    reveal_strlit(",\"data\":");
    reveal_strlit(",\"data\":\"");
    reveal_strlit(",\"previous_hash\":");
    reveal_strlit(",\"previous_hash\":\"");
    reveal_strlit(",\"hash\":");
    reveal_strlit(",\"hash\":\"");
    reveal_strlit("}");
    let t7 = "}"@ + rest;
    let t6 = s3 + (q + t7);
    let t5b = ",\"hash\":\""@ + t6;
    let t5 = s2 + (q + t5b);
    let t4b = ",\"previous_hash\":\""@ + t5;
    let t4 = s1 + (q + t4b);
    let t3b = ",\"data\":\""@ + t4;
    let t3 = d3 + t3b;
    let t2b = ",\"timestamp\":"@ + t3;
    let t2 = d2 + t2b;
    let t1b = ",\"nonce\":"@ + t2;
    let t1 = d1 + t1b;
    assert(s.skip(i as int) =~= "{\"id\":"@ + t1);
    lemma_match_lit_concat(s, i, "{\"id\":"@, t1);
    let i0 = (i + "{\"id\":"@.len()) as nat;
    lemma_dec_repr_digits(b.id as nat);
    assert(t1b[0] == ',');
    assert(t1 =~= d1 + t1b);
    lemma_parse_u64_round(s, i0, b.id, t1b);
    lemma_skip_concat(s, i0, d1, t1b);
    let i1 = (i0 + d1.len()) as nat;
    lemma_match_lit_concat(s, i1, ",\"nonce\":"@, t2);
    let i1b = (i1 + ",\"nonce\":"@.len()) as nat;
    assert(t2b[0] == ',');
    lemma_parse_u64_round(s, i1b, b.nonce, t2b);
    lemma_skip_concat(s, i1b, d2, t2b);
    let i2 = (i1b + d2.len()) as nat;
    lemma_match_lit_concat(s, i2, ",\"timestamp\":"@, t3);
    let i2b = (i2 + ",\"timestamp\":"@.len()) as nat;
    assert(t3b[0] == ',');
    lemma_parse_i64_round(s, i2b, b.timestamp, t3b);
    lemma_skip_concat(s, i2b, d3, t3b);
    let i3 = (i2b + d3.len()) as nat;
    lemma_match_lit_concat(s, i3, ",\"data\":\""@, t4);
    let i3b = (i3 + ",\"data\":\""@.len()) as nat;
    assert(s.skip(i3b as int) =~= s1 + q + (t4b));
    lemma_scan_escape(s, i3b, b.data, t4b);
    let i4 = (i3b + s1.len() + 1) as nat;
    assert(s.skip(i4 as int) == t4b) by {
        lemma_skip_concat(s, i3b, s1 + q, t4b);
        assert(s1 + q + t4b =~= (s1 + q) + t4b);
        assert(i4 == i3b + (s1 + q).len());
    }
    lemma_match_lit_concat(s, i4, ",\"previous_hash\":\""@, t5);
    let i4b = (i4 + ",\"previous_hash\":\""@.len()) as nat;
    assert(s.skip(i4b as int) =~= s2 + q + t5b);
    lemma_scan_escape(s, i4b, b.previous_hash, t5b);
    let i5 = (i4b + s2.len() + 1) as nat;
    assert(s.skip(i5 as int) == t5b) by {
        lemma_skip_concat(s, i4b, s2 + q, t5b);
        assert(s2 + q + t5b =~= (s2 + q) + t5b);
        assert(i5 == i4b + (s2 + q).len());
    }
    lemma_match_lit_concat(s, i5, ",\"hash\":\""@, t6);
    let i5b = (i5 + ",\"hash\":\""@.len()) as nat;
    assert(s.skip(i5b as int) =~= s3 + q + t7);
    lemma_scan_escape(s, i5b, b.hash, t7);
    let i6 = (i5b + s3.len() + 1) as nat;
    assert(s.skip(i6 as int) == t7) by {
        lemma_skip_concat(s, i5b, s3 + q, t7);
        assert(s3 + q + t7 =~= (s3 + q) + t7);
        assert(i6 == i5b + (s3 + q).len());
    }
    lemma_match_lit_concat(s, i6, "}"@, rest);
    let j = (i6 + "}"@.len()) as nat;
    assert(j == i + wire_block(b).len()) by {
        assert(wire_block(b).len() == "{\"id\":"@.len() + d1.len() + ",\"nonce\":"@.len()
            + d2.len() + ",\"timestamp\":"@.len() + d3.len() + ",\"data\":\""@.len() + s1.len() + 1
            + ",\"previous_hash\":\""@.len() + s2.len() + 1 + ",\"hash\":\""@.len() + s3.len() + 1
            + "}"@.len());
    }
    assert(spec_parse_block(s, i) == Some((BlockView {
        id: b.id,
        nonce: b.nonce,
        timestamp: b.timestamp,
        data: b.data,
        previous_hash: b.previous_hash,
        hash: b.hash,
    }, j)));
    assert(BlockView {
        id: b.id,
        nonce: b.nonce,
        timestamp: b.timestamp,
        data: b.data,
        previous_hash: b.previous_hash,
        hash: b.hash,
    } == b);
}

proof fn lemma_parse_i64_round(s: Seq<char>, i: nat, t: i64, rest: Seq<char>)
    requires
        i <= s.len(),
        s.skip(i as int) == dec_int_repr(t as int) + rest,
        rest.len() == 0 || !is_digit_char(rest[0]),
    ensures
        spec_parse_i64(s, i) == Some((t, (i + dec_int_repr(t as int).len()) as nat)),
{
    if t >= 0 {
        assert(dec_int_repr(t as int) == dec_repr(t as nat));
        lemma_dec_repr_digits(t as nat);
        assert(s[i as int] == s.skip(i as int)[0]);
        assert(s[i as int] == dec_repr(t as nat)[0]);
        assert(s[i as int] != '-');
        lemma_parse_u64_round(s, i, t as u64, rest);
    } else {
        let m = (-(t as int)) as nat;
        assert(dec_int_repr(t as int) == seq!['-'] + dec_repr(m));
        assert(s.len() - i == dec_int_repr(t as int).len() + rest.len()) by {
            assert(s.skip(i as int).len() == dec_int_repr(t as int).len() + rest.len());
        }
        assert(s[i as int] == s.skip(i as int)[0]);
        assert(s[i as int] == '-');
        assert(s.skip((i + 1) as int) =~= dec_repr(m) + rest) by {
            assert forall|k: int| 0 <= k < s.skip((i + 1) as int).len() implies s.skip(
                (i + 1) as int,
            )[k] == (dec_repr(m) + rest)[k] by {
                assert(s.skip((i + 1) as int)[k] == s[i + 1 + k]);
                assert(s.skip(i as int)[k + 1] == s[i + 1 + k]);
                assert(s.skip(i as int)[k + 1] == (dec_int_repr(t as int) + rest)[k + 1]);
            }
        }
        lemma_parse_u64_round(s, i + 1, m as u64, rest);
        assert(m >= 1 && m <= 0x8000_0000_0000_0000);
        assert((-(m as int)) as i64 == t);
    }
}

} // verus!
