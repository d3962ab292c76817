//! The JSON string escaping shared by the hash preimage and the wire
//! payloads: `"` and `\` are escaped, the five control characters with
//! short names use them, any other control character becomes `\u00XX`,
//! and every remaining character is written as itself.

use vstd::prelude::*;

use crate::text::push_char;

verus! {

/// The escape sequence a single character is written as inside a JSON
/// string literal.
pub open spec fn esc_char(c: char) -> Seq<char> {
    if c == '"' {
        seq!['\\', '"']
    } else if c == '\\' {
        seq!['\\', '\\']
    } else if c == '\u{8}' {
        seq!['\\', 'b']
    } else if c == '\t' {
        seq!['\\', 't']
    } else if c == '\n' {
        seq!['\\', 'n']
    } else if c == '\u{c}' {
        seq!['\\', 'f']
    } else if c == '\r' {
        seq!['\\', 'r']
    } else if c == '\u{0}' {
        seq!['\\', 'u', '0', '0', '0', '0']
    } else if c == '\u{1}' {
        seq!['\\', 'u', '0', '0', '0', '1']
    } else if c == '\u{2}' {
        seq!['\\', 'u', '0', '0', '0', '2']
    } else if c == '\u{3}' {
        seq!['\\', 'u', '0', '0', '0', '3']
    } else if c == '\u{4}' {
        seq!['\\', 'u', '0', '0', '0', '4']
    } else if c == '\u{5}' {
        seq!['\\', 'u', '0', '0', '0', '5']
    } else if c == '\u{6}' {
        seq!['\\', 'u', '0', '0', '0', '6']
    } else if c == '\u{7}' {
        seq!['\\', 'u', '0', '0', '0', '7']
    } else if c == '\u{b}' {
        seq!['\\', 'u', '0', '0', '0', 'b']
    } else if c == '\u{e}' {
        seq!['\\', 'u', '0', '0', '0', 'e']
    } else if c == '\u{f}' {
        seq!['\\', 'u', '0', '0', '0', 'f']
    } else if c == '\u{10}' {
        seq!['\\', 'u', '0', '0', '1', '0']
    } else if c == '\u{11}' {
        seq!['\\', 'u', '0', '0', '1', '1']
    } else if c == '\u{12}' {
        seq!['\\', 'u', '0', '0', '1', '2']
    } else if c == '\u{13}' {
        seq!['\\', 'u', '0', '0', '1', '3']
    } else if c == '\u{14}' {
        seq!['\\', 'u', '0', '0', '1', '4']
    } else if c == '\u{15}' {
        seq!['\\', 'u', '0', '0', '1', '5']
    } else if c == '\u{16}' {
        seq!['\\', 'u', '0', '0', '1', '6']
    } else if c == '\u{17}' {
        seq!['\\', 'u', '0', '0', '1', '7']
    } else if c == '\u{18}' {
        seq!['\\', 'u', '0', '0', '1', '8']
    } else if c == '\u{19}' {
        seq!['\\', 'u', '0', '0', '1', '9']
    } else if c == '\u{1a}' {
        seq!['\\', 'u', '0', '0', '1', 'a']
    } else if c == '\u{1b}' {
        seq!['\\', 'u', '0', '0', '1', 'b']
    } else if c == '\u{1c}' {
        seq!['\\', 'u', '0', '0', '1', 'c']
    } else if c == '\u{1d}' {
        seq!['\\', 'u', '0', '0', '1', 'd']
    } else if c == '\u{1e}' {
        seq!['\\', 'u', '0', '0', '1', 'e']
    } else if c == '\u{1f}' {
        seq!['\\', 'u', '0', '0', '1', 'f']
    } else {
        seq![c]
    }
}

/// A whole character sequence, escaped for inclusion in a JSON string
/// literal.
pub open spec fn json_escape(s: Seq<char>) -> Seq<char>
    decreases s.len(),
{
    if s.len() == 0 {
        Seq::empty()
    } else {
        esc_char(s.first()) + json_escape(s.drop_first())
    }
}

proof fn lemma_json_escape_push(s: Seq<char>, c: char)
    ensures
        json_escape(s.push(c)) == json_escape(s) + esc_char(c),
    decreases s.len(),
{
    if s.len() == 0 {
        assert(s.push(c).drop_first() =~= Seq::<char>::empty());
        assert(s.push(c).first() == c);
        assert(json_escape(Seq::<char>::empty()) == Seq::<char>::empty());
        assert(json_escape(s.push(c)) == esc_char(c) + json_escape(Seq::<char>::empty()));
        assert(json_escape(s) == Seq::<char>::empty());
        assert(json_escape(s.push(c)) =~= json_escape(s) + esc_char(c));
    } else {
        assert(s.push(c).drop_first() =~= s.drop_first().push(c));
        assert(s.push(c).first() == s.first());
        assert(json_escape(s.push(c)) == esc_char(s.first()) + json_escape(
            s.drop_first().push(c),
        ));
        lemma_json_escape_push(s.drop_first(), c);
        assert(json_escape(s) == esc_char(s.first()) + json_escape(s.drop_first()));
        assert(json_escape(s.push(c)) =~= json_escape(s) + esc_char(c));
    }
}

/// Appends the escape sequence of one character.
fn append_escaped(out: &mut String, c: char)
    ensures
        final(out)@ == old(out)@ + esc_char(c),
{
    if c == '"' {
        push_char(out, '\\');
        push_char(out, '"');
    } else if c == '\\' {
        push_char(out, '\\');
        push_char(out, '\\');
    } else if c == '\u{8}' {
        push_char(out, '\\');
        push_char(out, 'b');
    } else if c == '\t' {
        push_char(out, '\\');
        push_char(out, 't');
    } else if c == '\n' {
        push_char(out, '\\');
        push_char(out, 'n');
    } else if c == '\u{c}' {
        push_char(out, '\\');
        push_char(out, 'f');
    } else if c == '\r' {
        push_char(out, '\\');
        push_char(out, 'r');
    } else if c == '\u{0}' {
        push_char(out, '\\');
        push_char(out, 'u');
        push_char(out, '0');
        push_char(out, '0');
        push_char(out, '0');
        push_char(out, '0');
    } else if c == '\u{1}' {
        push_char(out, '\\');
        push_char(out, 'u');
        push_char(out, '0');
        push_char(out, '0');
        push_char(out, '0');
        push_char(out, '1');
    } else if c == '\u{2}' {
        push_char(out, '\\');
        push_char(out, 'u');
        push_char(out, '0');
        push_char(out, '0');
        push_char(out, '0');
        push_char(out, '2');
    } else if c == '\u{3}' {
        push_char(out, '\\');
        push_char(out, 'u');
        push_char(out, '0');
        push_char(out, '0');
        push_char(out, '0');
        push_char(out, '3');
    } else if c == '\u{4}' {
        push_char(out, '\\');
        push_char(out, 'u');
        push_char(out, '0');
        push_char(out, '0');
        push_char(out, '0');
        push_char(out, '4');
    } else if c == '\u{5}' {
        push_char(out, '\\');
        push_char(out, 'u');
        push_char(out, '0');
        push_char(out, '0');
        push_char(out, '0');
        push_char(out, '5');
    } else if c == '\u{6}' {
        push_char(out, '\\');
        push_char(out, 'u');
        push_char(out, '0');
        push_char(out, '0');
        push_char(out, '0');
        push_char(out, '6');
    } else if c == '\u{7}' {
        push_char(out, '\\');
        push_char(out, 'u');
        push_char(out, '0');
        push_char(out, '0');
        push_char(out, '0');
        push_char(out, '7');
    } else if c == '\u{b}' {
        push_char(out, '\\');
        push_char(out, 'u');
        push_char(out, '0');
        push_char(out, '0');
        push_char(out, '0');
        push_char(out, 'b');
    } else if c == '\u{e}' {
        push_char(out, '\\');
        push_char(out, 'u');
        push_char(out, '0');
        push_char(out, '0');
        push_char(out, '0');
        push_char(out, 'e');
    } else if c == '\u{f}' {
        push_char(out, '\\');
        push_char(out, 'u');
        push_char(out, '0');
        push_char(out, '0');
        push_char(out, '0');
        push_char(out, 'f');
    } else if c == '\u{10}' {
        push_char(out, '\\');
        push_char(out, 'u');
        push_char(out, '0');
        push_char(out, '0');
        push_char(out, '1');
        push_char(out, '0');
    } else if c == '\u{11}' {
        push_char(out, '\\');
        push_char(out, 'u');
        push_char(out, '0');
        push_char(out, '0');
        push_char(out, '1');
        push_char(out, '1');
    } else if c == '\u{12}' {
        push_char(out, '\\');
        push_char(out, 'u');
        push_char(out, '0');
        push_char(out, '0');
        push_char(out, '1');
        push_char(out, '2');
    } else if c == '\u{13}' {
        push_char(out, '\\');
        push_char(out, 'u');
        push_char(out, '0');
        push_char(out, '0');
        push_char(out, '1');
        push_char(out, '3');
    } else if c == '\u{14}' {
        push_char(out, '\\');
        push_char(out, 'u');
        push_char(out, '0');
        push_char(out, '0');
        push_char(out, '1');
        push_char(out, '4');
    } else if c == '\u{15}' {
        push_char(out, '\\');
        push_char(out, 'u');
        push_char(out, '0');
        push_char(out, '0');
        push_char(out, '1');
        push_char(out, '5');
    } else if c == '\u{16}' {
        push_char(out, '\\');
        push_char(out, 'u');
        push_char(out, '0');
        push_char(out, '0');
        push_char(out, '1');
        push_char(out, '6');
    } else if c == '\u{17}' {
        push_char(out, '\\');
        push_char(out, 'u');
        push_char(out, '0');
        push_char(out, '0');
        push_char(out, '1');
        push_char(out, '7');
    } else if c == '\u{18}' {
        push_char(out, '\\');
        push_char(out, 'u');
        push_char(out, '0');
        push_char(out, '0');
        push_char(out, '1');
        push_char(out, '8');
    } else if c == '\u{19}' {
        push_char(out, '\\');
        push_char(out, 'u');
        push_char(out, '0');
        push_char(out, '0');
        push_char(out, '1');
        push_char(out, '9');
    } else if c == '\u{1a}' {
        push_char(out, '\\');
        push_char(out, 'u');
        push_char(out, '0');
        push_char(out, '0');
        push_char(out, '1');
        push_char(out, 'a');
    } else if c == '\u{1b}' {
        push_char(out, '\\');
        push_char(out, 'u');
        push_char(out, '0');
        push_char(out, '0');
        push_char(out, '1');
        push_char(out, 'b');
    } else if c == '\u{1c}' {
        push_char(out, '\\');
        push_char(out, 'u');
        push_char(out, '0');
        push_char(out, '0');
        push_char(out, '1');
        push_char(out, 'c');
    } else if c == '\u{1d}' {
        push_char(out, '\\');
        push_char(out, 'u');
        push_char(out, '0');
        push_char(out, '0');
        push_char(out, '1');
        push_char(out, 'd');
    } else if c == '\u{1e}' {
        push_char(out, '\\');
        push_char(out, 'u');
        push_char(out, '0');
        push_char(out, '0');
        push_char(out, '1');
        push_char(out, 'e');
    } else if c == '\u{1f}' {
        push_char(out, '\\');
        push_char(out, 'u');
        push_char(out, '0');
        push_char(out, '0');
        push_char(out, '1');
        push_char(out, 'f');
    } else {
        push_char(out, c);
    }
    assert(final(out)@ =~= old(out)@ + esc_char(c));
}

/// Appends a character sequence, escaped, to the output.
pub fn append_json_escaped(out: &mut String, s: &str)
    ensures
        final(out)@ == old(out)@ + json_escape(s@),
{
    let n = s.unicode_len();
    let mut i: usize = 0;
    while i < n
        invariant
            n == s@.len(),
            i <= n,
            out@ == old(out)@ + json_escape(s@.take(i as int)),
        decreases n - i,
    {
        let c = s.get_char(i);
        append_escaped(out, c);
        proof {
            assert(s@.take(i + 1 as int) =~= s@.take(i as int).push(s@[i as int]));
            lemma_json_escape_push(s@.take(i as int), s@[i as int]);
            assert(old(out)@ + json_escape(s@.take(i as int)) + esc_char(s@[i as int]) =~= old(
                out,
            )@ + json_escape(s@.take(i + 1 as int)));
        }
        i = i + 1;
    }
    proof {
        assert(s@.take(n as int) =~= s@);
    }
}

} // verus!
