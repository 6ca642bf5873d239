//! The cache codec: renders a list of news items as a JSON array of
//! `{"title", "summary", "date", "link"}` objects, and parses that form
//! back. Parsing a rendered text always succeeds and yields the same
//! items, proved in [`lemma_cache_round_trip`].

use crate::text::chars_to_string;
use crate::text::str_to_chars;
use crate::ItemModel;
use crate::NewsItem;
use vstd::prelude::*;

verus! {

/// The lower-case hex digit for `v` in `0..16`.
pub open spec fn hex_digit_char(v: int) -> char {
    if v == 0 {
        '0'
    } else if v == 1 {
        '1'
    } else if v == 2 {
        '2'
    } else if v == 3 {
        '3'
    } else if v == 4 {
        '4'
    } else if v == 5 {
        '5'
    } else if v == 6 {
        '6'
    } else if v == 7 {
        '7'
    } else if v == 8 {
        '8'
    } else if v == 9 {
        '9'
    } else if v == 10 {
        'a'
    } else if v == 11 {
        'b'
    } else if v == 12 {
        'c'
    } else if v == 13 {
        'd'
    } else if v == 14 {
        'e'
    } else if v == 15 {
        'f'
    } else {
        ' '
    }
}

/// The value of a lower-case hex digit, or -1 for any other character.
pub open spec fn hex_val(c: char) -> int {
    if c == '0' {
        0
    } else if c == '1' {
        1
    } else if c == '2' {
        2
    } else if c == '3' {
        3
    } else if c == '4' {
        4
    } else if c == '5' {
        5
    } else if c == '6' {
        6
    } else if c == '7' {
        7
    } else if c == '8' {
        8
    } else if c == '9' {
        9
    } else if c == 'a' {
        10
    } else if c == 'b' {
        11
    } else if c == 'c' {
        12
    } else if c == 'd' {
        13
    } else if c == 'e' {
        14
    } else if c == 'f' {
        15
    } else {
        -1
    }
}

/// How one character is written inside a JSON string: quote and backslash
/// get a backslash escape, control characters a `\u00XX` escape, and every
/// other character stands for itself.
pub open spec fn esc_char(c: char) -> Seq<char> {
    if c == '"' {
        seq!['\\', '"']
    } else if c == '\\' {
        seq!['\\', '\\']
    } else if (c as u32) < 0x20 {
        seq!['\\', 'u', '0', '0', hex_digit_char((c as u32) as int / 16), hex_digit_char(
            (c as u32) as int % 16,
        )]
    } else {
        seq![c]
    }
}

/// A whole text written inside a JSON string.
pub open spec fn esc_str(s: Seq<char>) -> Seq<char>
    decreases s.len(),
{
    if s.len() == 0 {
        Seq::empty()
    } else {
        esc_char(s[0]) + esc_str(s.drop_first())
    }
}

/// Escaping distributes over concatenation.
pub proof fn lemma_esc_str_append(a: Seq<char>, b: Seq<char>)
    ensures
        esc_str(a + b) == esc_str(a) + esc_str(b),
    decreases a.len(),
{
    if a.len() == 0 {
        assert(a + b =~= b);
        assert(esc_str(a) + esc_str(b) =~= esc_str(b));
    } else {
        assert((a + b)[0] == a[0]);
        assert((a + b).drop_first() =~= a.drop_first() + b);
        lemma_esc_str_append(a.drop_first(), b);
        assert(esc_char(a[0]) + (esc_str(a.drop_first()) + esc_str(b)) =~= (esc_char(a[0])
            + esc_str(a.drop_first())) + esc_str(b));
    }
}

/// The opening of an object up to the title text: `{"title":"`.
pub open spec fn lit_item_open() -> Seq<char> {
    seq!['{', '"', 't', 'i', 't', 'l', 'e', '"', ':', '"']
}

/// Between the title text and the summary text: `,"summary":"`.
pub open spec fn lit_sep_summary() -> Seq<char> {
    seq![',', '"', 's', 'u', 'm', 'm', 'a', 'r', 'y', '"', ':', '"']
}

/// Between the summary text and the date text: `,"date":"`.
pub open spec fn lit_sep_date() -> Seq<char> {
    seq![',', '"', 'd', 'a', 't', 'e', '"', ':', '"']
}

/// Between the date text and the link text: `,"link":"`.
pub open spec fn lit_sep_link() -> Seq<char> {
    seq![',', '"', 'l', 'i', 'n', 'k', '"', ':', '"']
}

/// One item as a JSON object.
pub open spec fn spec_render_item(m: ItemModel) -> Seq<char> {
    lit_item_open() + esc_str(m.title) + seq!['"'] + lit_sep_summary() + esc_str(m.summary)
        + seq!['"'] + lit_sep_date() + esc_str(m.date) + seq!['"'] + lit_sep_link() + esc_str(
        m.link,
    ) + seq!['"', '}']
}

/// The objects of the array, separated by commas.
pub open spec fn spec_render_inner(ms: Seq<ItemModel>) -> Seq<char>
    decreases ms.len(),
{
    if ms.len() == 0 {
        Seq::empty()
    } else if ms.len() == 1 {
        spec_render_item(ms[0])
    } else {
        spec_render_item(ms[0]) + seq![','] + spec_render_inner(ms.drop_first())
    }
}

/// The whole cache text: a JSON array of the items.
pub open spec fn spec_render_items(ms: Seq<ItemModel>) -> Seq<char> {
    seq!['['] + spec_render_inner(ms) + seq![']']
}

/// Appending one more item inserts one separating comma.
proof fn lemma_render_inner_push(ms: Seq<ItemModel>, m: ItemModel)
    requires
        ms.len() >= 1,
    ensures
        spec_render_inner(ms.push(m)) == spec_render_inner(ms) + seq![','] + spec_render_item(m),
    decreases ms.len(),
{
    if ms.len() == 1 {
        assert(ms.push(m)[0] == ms[0]);
        assert(ms.push(m).drop_first() =~= seq![m]);
        assert(spec_render_inner(seq![m]) == spec_render_item(m));
    } else {
        assert(ms.push(m)[0] == ms[0]);
        assert(ms.push(m).drop_first() =~= ms.drop_first().push(m));
        lemma_render_inner_push(ms.drop_first(), m);
        assert(spec_render_item(ms[0]) + seq![','] + (spec_render_inner(ms.drop_first())
            + seq![','] + spec_render_item(m)) =~= (spec_render_item(ms[0]) + seq![',']
            + spec_render_inner(ms.drop_first())) + seq![','] + spec_render_item(m));
    }
}

/// The closing of an object: `}`.
pub open spec fn lit_item_end() -> Seq<char> {
    seq!['}']
}

/// Consumes a leading occurrence of `lit`, or fails.
pub open spec fn sp_lit(s: Seq<char>, lit: Seq<char>) -> Option<Seq<char>> {
    if s.len() >= lit.len() && s.take(lit.len() as int) == lit {
        Some(s.skip(lit.len() as int))
    } else {
        None
    }
}

/// Consumes a JSON string body up to and including its closing quote,
/// decoding the escapes the renderer writes, and yields the decoded text
/// with the remainder.
pub open spec fn sp_string(s: Seq<char>) -> Option<(Seq<char>, Seq<char>)>
    decreases s.len(),
{
    if s.len() == 0 {
        None
    } else if s[0] == '"' {
        Some((Seq::empty(), s.skip(1)))
    } else if s[0] == '\\' {
        if s.len() >= 2 && (s[1] == '"' || s[1] == '\\') {
            match sp_string(s.skip(2)) {
                Some(p) => Some((seq![s[1]] + p.0, p.1)),
                None => None,
            }
        } else if s.len() >= 6 && s[1] == 'u' && s[2] == '0' && s[3] == '0' && hex_val(s[4]) >= 0
            && hex_val(s[5]) >= 0 && 16 * hex_val(s[4]) + hex_val(s[5]) < 0x20 {
            match sp_string(s.skip(6)) {
                Some(p) => Some(
                    (seq![((16 * hex_val(s[4]) + hex_val(s[5])) as u32) as char] + p.0, p.1),
                ),
                None => None,
            }
        } else {
            None
        }
    } else {
        match sp_string(s.skip(1)) {
            Some(p) => Some((seq![s[0]] + p.0, p.1)),
            None => None,
        }
    }
}

/// Consumes one `{"title":...}` object.
pub open spec fn sp_item(s: Seq<char>) -> Option<(ItemModel, Seq<char>)> {
    match sp_lit(s, lit_item_open()) {
        None => None,
        Some(s1) => match sp_string(s1) {
            None => None,
            Some((title, s2)) => match sp_lit(s2, lit_sep_summary()) {
                None => None,
                Some(s3) => match sp_string(s3) {
                    None => None,
                    Some((summary, s4)) => match sp_lit(s4, lit_sep_date()) {
                        None => None,
                        Some(s5) => match sp_string(s5) {
                            None => None,
                            Some((date, s6)) => match sp_lit(s6, lit_sep_link()) {
                                None => None,
                                Some(s7) => match sp_string(s7) {
                                    None => None,
                                    Some((link, s8)) => match sp_lit(s8, lit_item_end()) {
                                        None => None,
                                        Some(s9) => Some(
                                            (ItemModel { title, summary, date, link }, s9),
                                        ),
                                    },
                                },
                            },
                        },
                    },
                },
            },
        },
    }
}

/// A successful string parse consumes at least its closing quote.
proof fn lemma_sp_string_consumes(s: Seq<char>)
    ensures
        match sp_string(s) {
            Some(p) => p.1.len() < s.len(),
            None => true,
        },
    decreases s.len(),
{
    if s.len() == 0 {
    } else if s[0] == '"' {
    } else if s[0] == '\\' {
        if s.len() >= 2 && (s[1] == '"' || s[1] == '\\') {
            lemma_sp_string_consumes(s.skip(2));
        } else if s.len() >= 6 && s[1] == 'u' && s[2] == '0' && s[3] == '0' && hex_val(s[4]) >= 0
            && hex_val(s[5]) >= 0 && 16 * hex_val(s[4]) + hex_val(s[5]) < 0x20 {
            lemma_sp_string_consumes(s.skip(6));
        }
    } else {
        lemma_sp_string_consumes(s.skip(1));
    }
}

/// A successful item parse consumes at least one character.
proof fn lemma_sp_item_consumes(s: Seq<char>)
    ensures
        match sp_item(s) {
            Some(p) => p.1.len() < s.len(),
            None => true,
        },
{
    match sp_lit(s, lit_item_open()) {
        None => {},
        Some(s1) => {
            lemma_sp_string_consumes(s1);
            match sp_string(s1) {
                None => {},
                Some((title, s2)) => {
                    match sp_lit(s2, lit_sep_summary()) {
                        None => {},
                        Some(s3) => {
                            lemma_sp_string_consumes(s3);
                            match sp_string(s3) {
                                None => {},
                                Some((summary, s4)) => {
                                    match sp_lit(s4, lit_sep_date()) {
                                        None => {},
                                        Some(s5) => {
                                            lemma_sp_string_consumes(s5);
                                            match sp_string(s5) {
                                                None => {},
                                                Some((date, s6)) => {
                                                    match sp_lit(s6, lit_sep_link()) {
                                                        None => {},
                                                        Some(s7) => {
                                                            lemma_sp_string_consumes(s7);
                                                        },
                                                    }
                                                },
                                            }
                                        },
                                    }
                                },
                            }
                        },
                    }
                },
            }
        },
    }
}

/// Consumes one or more comma-separated objects.
pub open spec fn sp_items(s: Seq<char>) -> Option<(Seq<ItemModel>, Seq<char>)>
    decreases s.len(),
    via sp_items_decreases
{
    match sp_item(s) {
        None => None,
        Some((m, r)) => if r.len() > 0 && r[0] == ',' {
            match sp_items(r.drop_first()) {
                None => None,
                Some((ms, r2)) => Some((seq![m] + ms, r2)),
            }
        } else {
            Some((seq![m], r))
        },
    }
}

#[via_fn]
proof fn sp_items_decreases(s: Seq<char>) {
    lemma_sp_item_consumes(s);
}

/// Parses the whole cache text as a JSON array of items.
pub open spec fn spec_parse_items(s: Seq<char>) -> Option<Seq<ItemModel>> {
    if s.len() == 2 && s[0] == '[' && s[1] == ']' {
        Some(Seq::empty())
    } else if s.len() > 0 && s[0] == '[' {
        match sp_items(s.skip(1)) {
            Some((ms, r)) => if r == seq![']'] {
                Some(ms)
            } else {
                None
            },
            None => None,
        }
    } else {
        None
    }
}

/// What loading yields from a cache text: the parsed items, or nothing at
/// all when the text is not well-formed.
pub open spec fn spec_loaded_items(s: Seq<char>) -> Seq<ItemModel> {
    match spec_parse_items(s) {
        Some(ms) => ms,
        None => Seq::empty(),
    }
}

/// A literal at the front of a text is consumed exactly.
proof fn lemma_sp_lit_prefix(lit: Seq<char>, rest: Seq<char>)
    ensures
        sp_lit(lit + rest, lit) == Some(rest),
{
    assert((lit + rest).take(lit.len() as int) =~= lit);
    assert((lit + rest).skip(lit.len() as int) =~= rest);
}

/// Hex digits decode to the value they encode.
proof fn lemma_hex_round(v: int)
    requires
        0 <= v < 16,
    ensures
        hex_val(hex_digit_char(v)) == v,
{
}

/// Parsing an escaped text followed by a closing quote decodes it exactly.
proof fn lemma_sp_string_esc(t: Seq<char>, rest: Seq<char>)
    ensures
        sp_string(esc_str(t) + seq!['"'] + rest) == Some((t, rest)),
    decreases t.len(),
{
    let s = esc_str(t) + seq!['"'] + rest;
    if t.len() == 0 {
        assert(esc_str(t) =~= Seq::<char>::empty());
        assert(s =~= seq!['"'] + rest);
        assert(s[0] == '"');
        assert(s.skip(1) =~= rest);
        assert(Seq::<char>::empty() =~= t);
    } else {
        let c = t[0];
        let tail = esc_str(t.drop_first()) + seq!['"'] + rest;
        lemma_sp_string_esc(t.drop_first(), rest);
        assert(esc_str(t) == esc_char(c) + esc_str(t.drop_first()));
        if c == '"' {
            assert(s =~= seq!['\\', '"'] + tail);
            assert(s[0] == '\\' && s[1] == '"');
            assert(s.skip(2) =~= tail);
            assert(seq![s[1]] + t.drop_first() =~= t);
        } else if c == '\\' {
            assert(s =~= seq!['\\', '\\'] + tail);
            assert(s[0] == '\\' && s[1] == '\\');
            assert(s.skip(2) =~= tail);
            assert(seq![s[1]] + t.drop_first() =~= t);
        } else if (c as u32) < 0x20 {
            let u = (c as u32) as int;
            let h1 = hex_digit_char(u / 16);
            let h0 = hex_digit_char(u % 16);
            assert(esc_char(c) == seq!['\\', 'u', '0', '0', h1, h0]);
            assert(s =~= seq!['\\', 'u', '0', '0', h1, h0] + tail);
            assert(s[0] == '\\' && s[1] == 'u' && s[2] == '0' && s[3] == '0' && s[4] == h1 && s[5]
                == h0);
            assert(s.len() >= 6);
            vstd::arithmetic::div_mod::lemma_fundamental_div_mod(u, 16);
            vstd::arithmetic::div_mod::lemma_mod_division_less_than_divisor(u, 16);
            vstd::arithmetic::div_mod::lemma_div_pos_is_pos(u, 16);
            assert(0 <= u % 16 < 16);
            assert(0 <= u / 16 < 16) by {
                assert(u == 16 * (u / 16) + u % 16);
            }
            lemma_hex_round(u / 16);
            lemma_hex_round(u % 16);
            assert(16 * hex_val(s[4]) + hex_val(s[5]) == u);
            assert(u < 0x20);
            assert(s.skip(6) =~= tail);
            assert(((u as u32) as char) == c) by {
                vstd::utf8::char_u32_cast(c, c as u32);
            }
            assert(seq![((16 * hex_val(s[4]) + hex_val(s[5])) as u32) as char] + t.drop_first()
                =~= t);
        } else {
            assert(esc_char(c) == seq![c]);
            assert(s =~= seq![c] + tail);
            assert(s[0] == c);
            assert(s.skip(1) =~= tail);
            assert(seq![s[0]] + t.drop_first() =~= t);
        }
    }
}

/// Parsing a rendered object gives the item back.
proof fn lemma_sp_item_render(m: ItemModel, rest: Seq<char>)
    ensures
        sp_item(spec_render_item(m) + rest) == Some((m, rest)),
{
    let s = spec_render_item(m) + rest;
    let r8 = seq!['}'] + rest;
    let r7 = esc_str(m.link) + seq!['"'] + r8;
    let r6 = lit_sep_link() + r7;
    let r5 = esc_str(m.date) + seq!['"'] + r6;
    let r4 = lit_sep_date() + r5;
    let r3 = esc_str(m.summary) + seq!['"'] + r4;
    let r2 = lit_sep_summary() + r3;
    let r1 = esc_str(m.title) + seq!['"'] + r2;
    assert(s =~= lit_item_open() + r1);
    lemma_sp_lit_prefix(lit_item_open(), r1);
    assert(sp_lit(s, lit_item_open()) == Some(r1));
    lemma_sp_string_esc(m.title, r2);
    assert(sp_string(r1) == Some((m.title, r2)));
    lemma_sp_lit_prefix(lit_sep_summary(), r3);
    assert(sp_lit(r2, lit_sep_summary()) == Some(r3));
    lemma_sp_string_esc(m.summary, r4);
    assert(sp_string(r3) == Some((m.summary, r4)));
    lemma_sp_lit_prefix(lit_sep_date(), r5);
    assert(sp_lit(r4, lit_sep_date()) == Some(r5));
    lemma_sp_string_esc(m.date, r6);
    assert(sp_string(r5) == Some((m.date, r6)));
    lemma_sp_lit_prefix(lit_sep_link(), r7);
    assert(sp_lit(r6, lit_sep_link()) == Some(r7));
    lemma_sp_string_esc(m.link, r8);
    assert(sp_string(r7) == Some((m.link, r8)));
    assert(r8 =~= lit_item_end() + rest);
    lemma_sp_lit_prefix(lit_item_end(), rest);
    assert(sp_lit(r8, lit_item_end()) == Some(rest));
}

/// Parsing rendered objects, up to a remainder that opens with no comma,
/// gives the items back.
#[verifier::rlimit(60)]
proof fn lemma_sp_items_render(ms: Seq<ItemModel>, rest: Seq<char>)
    requires
        ms.len() >= 1,
        rest.len() >= 1,
        rest[0] != ',',
    ensures
        sp_items(spec_render_inner(ms) + rest) == Some((ms, rest)),
    decreases ms.len(),
{
    let s = spec_render_inner(ms) + rest;
    if ms.len() == 1 {
        assert(spec_render_inner(ms) == spec_render_item(ms[0]));
        lemma_sp_item_render(ms[0], rest);
        assert(sp_item(s) == Some((ms[0], rest)));
        assert(seq![ms[0]] =~= ms);
    } else {
        let inner_rest = spec_render_inner(ms.drop_first()) + rest;
        let after = seq![','] + inner_rest;
        assert(s =~= spec_render_item(ms[0]) + after);
        lemma_sp_item_render(ms[0], after);
        assert(sp_item(s) == Some((ms[0], after)));
        assert(after[0] == ',');
        assert(after.len() > 0);
        assert(after.drop_first() =~= inner_rest);
        lemma_sp_items_render(ms.drop_first(), rest);
        assert(sp_items(inner_rest) == Some((ms.drop_first(), rest)));
        assert(seq![ms[0]] + ms.drop_first() =~= ms);
    }
}

/// Saving and re-loading a list of items yields exactly the same items:
/// parsing the rendered cache text always succeeds and gives the list back.
pub proof fn lemma_cache_round_trip(ms: Seq<ItemModel>)
    ensures
        spec_parse_items(spec_render_items(ms)) == Some(ms),
        spec_loaded_items(spec_render_items(ms)) == ms,
{
    let s = spec_render_items(ms);
    if ms.len() == 0 {
        assert(spec_render_inner(ms) =~= Seq::<char>::empty());
        assert(s =~= seq!['[', ']']);
        assert(s.len() == 2 && s[0] == '[' && s[1] == ']');
    } else {
        let inner = spec_render_inner(ms);
        assert(spec_render_item(ms[0]).len() >= lit_item_open().len());
        assert(inner.len() >= 10);
        assert(s.len() > 2);
        assert(s[0] == '[');
        assert(s.skip(1) =~= inner + seq![']']);
        lemma_sp_items_render(ms, seq![']']);
        assert(sp_items(s.skip(1)) == Some((ms, seq![']'])));
    }
}

/// Appends the escaped form of `s`.
fn push_escaped(out: &mut Vec<char>, s: &Vec<char>)
    ensures
        final(out)@ == old(out)@ + esc_str(s@),
{
    let ghost base = old(out)@;
    proof {
        assert(s@.take(0) =~= Seq::<char>::empty());
        assert(base + Seq::<char>::empty() =~= base);
    }
    let mut i: usize = 0;
    while i < s.len()
        invariant
            i <= s@.len(),
            out@ == base + esc_str(s@.take(i as int)),
        decreases s@.len() - i,
    {
        let ghost pre = out@;
        let c = s[i];
        if c == '"' {
            out.push('\\');
            out.push('"');
        } else if c == '\\' {
            out.push('\\');
            out.push('\\');
        } else {
            let u = c as u32;
            if u < 0x20 {
                out.push('\\');
                out.push('u');
                out.push('0');
                out.push('0');
                out.push(hex_digit(u / 16));
                out.push(hex_digit(u % 16));
            } else {
                out.push(c);
            }
        }
        proof {
            assert(out@ =~= pre + esc_char(c));
            assert(s@.take(i + 1) =~= s@.take(i as int) + seq![c]);
            lemma_esc_str_append(s@.take(i as int), seq![c]);
            assert(seq![c].drop_first() =~= Seq::<char>::empty());
            assert(esc_str(seq![c]) == esc_char(c) + esc_str(Seq::<char>::empty()));
            assert(esc_char(c) + Seq::<char>::empty() =~= esc_char(c));
            assert(base + (esc_str(s@.take(i as int)) + esc_char(c)) =~= (base + esc_str(
                s@.take(i as int),
            )) + esc_char(c));
        }
        i = i + 1;
    }
    proof {
        assert(s@.take(s@.len() as int) =~= s@);
    }
}

/// The lower-case hex digit for `v % 16`.
fn hex_digit(v: u32) -> (c: char)
    requires
        v < 16,
    ensures
        c == hex_digit_char(v as int),
{
    if v == 0 {
        '0'
    } else if v == 1 {
        '1'
    } else if v == 2 {
        '2'
    } else if v == 3 {
        '3'
    } else if v == 4 {
        '4'
    } else if v == 5 {
        '5'
    } else if v == 6 {
        '6'
    } else if v == 7 {
        '7'
    } else if v == 8 {
        '8'
    } else if v == 9 {
        '9'
    } else if v == 10 {
        'a'
    } else if v == 11 {
        'b'
    } else if v == 12 {
        'c'
    } else if v == 13 {
        'd'
    } else if v == 14 {
        'e'
    } else {
        'f'
    }
}

/// Appends the characters of `lit`.
fn push_all(out: &mut Vec<char>, lit: &Vec<char>)
    ensures
        final(out)@ == old(out)@ + lit@,
{
    let ghost base = old(out)@;
    proof {
        assert(base + lit@.take(0) =~= base);
    }
    let mut i: usize = 0;
    while i < lit.len()
        invariant
            i <= lit@.len(),
            out@ == base + lit@.take(i as int),
        decreases lit@.len() - i,
    {
        out.push(lit[i]);
        proof {
            assert(base + lit@.take(i + 1) =~= (base + lit@.take(i as int)).push(lit@[i as int]));
        }
        i = i + 1;
    }
    proof {
        assert(lit@.take(lit@.len() as int) =~= lit@);
    }
}

/// The opening literal as a vector.
fn lit_item_open_vec() -> (v: Vec<char>)
    ensures
        v@ == lit_item_open(),
{
    let mut v: Vec<char> = Vec::new();
    v.push('{');
    v.push('"');
    v.push('t');
    v.push('i');
    v.push('t');
    v.push('l');
    v.push('e');
    v.push('"');
    v.push(':');
    v.push('"');
    proof {
        assert(v@ =~= lit_item_open());
    }
    v
}

/// The summary separator as a vector.
fn lit_sep_summary_vec() -> (v: Vec<char>)
    ensures
        v@ == lit_sep_summary(),
{
    let mut v: Vec<char> = Vec::new();
    v.push(',');
    v.push('"');
    v.push('s');
    v.push('u');
    v.push('m');
    v.push('m');
    v.push('a');
    v.push('r');
    v.push('y');
    v.push('"');
    v.push(':');
    v.push('"');
    proof {
        assert(v@ =~= lit_sep_summary());
    }
    v
}

/// The date separator as a vector.
fn lit_sep_date_vec() -> (v: Vec<char>)
    ensures
        v@ == lit_sep_date(),
{
    let mut v: Vec<char> = Vec::new();
    v.push(',');
    v.push('"');
    v.push('d');
    v.push('a');
    v.push('t');
    v.push('e');
    v.push('"');
    v.push(':');
    v.push('"');
    proof {
        assert(v@ =~= lit_sep_date());
    }
    v
}

/// The link separator as a vector.
fn lit_sep_link_vec() -> (v: Vec<char>)
    ensures
        v@ == lit_sep_link(),
{
    let mut v: Vec<char> = Vec::new();
    v.push(',');
    v.push('"');
    v.push('l');
    v.push('i');
    v.push('n');
    v.push('k');
    v.push('"');
    v.push(':');
    v.push('"');
    proof {
        assert(v@ =~= lit_sep_link());
    }
    v
}

/// Appends the rendered form of one item.
fn push_item(out: &mut Vec<char>, item: &NewsItem)
    ensures
        final(out)@ == old(out)@ + spec_render_item(item@),
{
    let ghost base = old(out)@;
    let open = lit_item_open_vec();
    push_all(out, &open);
    let title = str_to_chars(item.title.as_str());
    push_escaped(out, &title);
    out.push('"');
    let sep_s = lit_sep_summary_vec();
    push_all(out, &sep_s);
    let summary = str_to_chars(item.summary.as_str());
    push_escaped(out, &summary);
    out.push('"');
    let sep_d = lit_sep_date_vec();
    push_all(out, &sep_d);
    let date = str_to_chars(item.date.as_str());
    push_escaped(out, &date);
    out.push('"');
    let sep_l = lit_sep_link_vec();
    push_all(out, &sep_l);
    let link = str_to_chars(item.link.as_str());
    push_escaped(out, &link);
    out.push('"');
    out.push('}');
    proof {
        assert(out@ =~= base + spec_render_item(item@));
    }
}

/// The value of a lower-case hex digit, or -1.
fn hex_value(c: char) -> (v: i32)
    ensures
        v as int == hex_val(c),
{
    if c == '0' {
        0
    } else if c == '1' {
        1
    } else if c == '2' {
        2
    } else if c == '3' {
        3
    } else if c == '4' {
        4
    } else if c == '5' {
        5
    } else if c == '6' {
        6
    } else if c == '7' {
        7
    } else if c == '8' {
        8
    } else if c == '9' {
        9
    } else if c == 'a' {
        10
    } else if c == 'b' {
        11
    } else if c == 'c' {
        12
    } else if c == 'd' {
        13
    } else if c == 'e' {
        14
    } else if c == 'f' {
        15
    } else {
        -1
    }
}

/// Consumes `lit` at position `i`, yielding the position after it.
fn parse_lit(s: &Vec<char>, i: usize, lit: &Vec<char>) -> (r: Option<usize>)
    requires
        i <= s@.len(),
    ensures
        match r {
            Some(j) => i <= j <= s@.len() && sp_lit(s@.skip(i as int), lit@) == Some(
                s@.skip(j as int),
            ),
            None => sp_lit(s@.skip(i as int), lit@) is None,
        },
{
    if s.len() - i < lit.len() {
        return None;
    }
    let n = s.len();
    let mut k: usize = 0;
    while k < lit.len()
        invariant
            k <= lit@.len(),
            i + lit@.len() <= s@.len(),
            n == s@.len(),
            forall|j: int| 0 <= j < k ==> s@[i + j] == lit@[j],
        decreases lit@.len() - k,
    {
        if s[i + k] != lit[k] {
            proof {
                let u = s@.skip(i as int);
                assert(u.take(lit@.len() as int)[k as int] == s@[i + k]);
            }
            return None;
        }
        k = k + 1;
    }
    proof {
        let u = s@.skip(i as int);
        assert(u.take(lit@.len() as int) =~= lit@);
        assert(u.skip(lit@.len() as int) =~= s@.skip(i + lit@.len()));
    }
    Some(i + lit.len())
}

/// Consumes a JSON string body at position `i`, decoding its escapes.
fn parse_string_at(s: &Vec<char>, i: usize) -> (r: Option<(Vec<char>, usize)>)
    requires
        i <= s@.len(),
    ensures
        match r {
            Some(p) => i <= p.1 <= s@.len() && sp_string(s@.skip(i as int)) == Some(
                (p.0@, s@.skip(p.1 as int)),
            ),
            None => sp_string(s@.skip(i as int)) is None,
        },
{
    let mut d: Vec<char> = Vec::new();
    let mut cur: usize = i;
    while cur < s.len()
        invariant
            i <= cur <= s@.len(),
            match sp_string(s@.skip(cur as int)) {
                Some(p) => sp_string(s@.skip(i as int)) == Some((d@ + p.0, p.1)),
                None => sp_string(s@.skip(i as int)) is None,
            },
        decreases s@.len() - cur,
    {
        let ghost u = s@.skip(cur as int);
        proof {
            assert(u[0] == s@[cur as int]);
        }
        let c = s[cur];
        if c == '"' {
            proof {
                assert(u.skip(1) =~= s@.skip(cur + 1));
                assert(sp_string(u) == Some((Seq::<char>::empty(), s@.skip(cur + 1))));
                assert(d@ + Seq::<char>::empty() =~= d@);
            }
            return Some((d, cur + 1));
        } else if c == '\\' {
            if cur + 1 < s.len() && (s[cur + 1] == '"' || s[cur + 1] == '\\') {
                proof {
                    assert(u[1] == s@[cur + 1]);
                    assert(u.len() >= 2);
                    assert(u.skip(2) =~= s@.skip(cur + 2));
                }
                let ghost pre = d@;
                d.push(s[cur + 1]);
                proof {
                    match sp_string(s@.skip(cur + 2)) {
                        Some(p) => {
                            assert(sp_string(u) == Some((seq![u[1]] + p.0, p.1)));
                            assert(pre + (seq![u[1]] + p.0) =~= d@ + p.0);
                        },
                        None => {
                            assert(sp_string(u) is None);
                        },
                    }
                }
                cur = cur + 2;
            } else if s.len() - cur > 5 && s[cur + 1] == 'u' && s[cur + 2] == '0' && s[cur + 3]
                == '0' {
                proof {
                    assert(u[1] == s@[cur + 1]);
                    assert(u[2] == s@[cur + 2]);
                    assert(u[3] == s@[cur + 3]);
                    assert(u[4] == s@[cur + 4]);
                    assert(u[5] == s@[cur + 5]);
                    assert(u.len() >= 6);
                }
                let hv1 = hex_value(s[cur + 4]);
                let hv2 = hex_value(s[cur + 5]);
                if hv1 >= 0 && hv2 >= 0 && 16 * hv1 + hv2 < 0x20 {
                    proof {
                        assert(u.skip(6) =~= s@.skip(cur + 6));
                    }
                    let code = (16 * hv1 + hv2) as u32;
                    let dc = char_from_code(code);
                    let ghost pre = d@;
                    d.push(dc);
                    proof {
                        match sp_string(s@.skip(cur + 6)) {
                            Some(p) => {
                                assert(sp_string(u) == Some(
                                    (seq![((16 * hex_val(u[4]) + hex_val(u[5])) as u32) as char]
                                        + p.0, p.1),
                                ));
                                assert(pre + (seq![dc] + p.0) =~= d@ + p.0);
                            },
                            None => {
                                assert(sp_string(u) is None);
                            },
                        }
                    }
                    cur = cur + 6;
                } else {
                    proof {
                        assert(sp_string(u) is None);
                    }
                    return None;
                }
            } else {
                proof {
                    if u.len() >= 2 && (u[1] == '"' || u[1] == '\\') {
                        assert(u[1] == s@[cur + 1]);
                        assert(false);
                    }
                    if u.len() >= 6 && u[1] == 'u' && u[2] == '0' && u[3] == '0' {
                        assert(u[1] == s@[cur + 1]);
                        assert(u[2] == s@[cur + 2]);
                        assert(u[3] == s@[cur + 3]);
                        assert(false);
                    }
                    assert(sp_string(u) is None);
                }
                return None;
            }
        } else {
            proof {
                assert(u.skip(1) =~= s@.skip(cur + 1));
            }
            let ghost pre = d@;
            d.push(c);
            proof {
                match sp_string(s@.skip(cur + 1)) {
                    Some(p) => {
                        assert(sp_string(u) == Some((seq![u[0]] + p.0, p.1)));
                        assert(pre + (seq![u[0]] + p.0) =~= d@ + p.0);
                    },
                    None => {
                        assert(sp_string(u) is None);
                    },
                }
            }
            cur = cur + 1;
        }
    }
    proof {
        assert(s@.skip(cur as int).len() == 0);
    }
    None
}

/// Relies on std's `char::from_u32`: every value below 0xD800 is a Unicode
/// scalar value, so the conversion succeeds and yields that code point.
#[verifier::external_body]
fn char_from_code(v: u32) -> (c: char)
    requires
        v < 0xD800,
    ensures
        c == (v as char),
{
    char::from_u32(v).unwrap_or(' ')
}

/// Consumes one `{"title":...}` object at position `i`.
fn parse_item_at(s: &Vec<char>, i: usize) -> (r: Option<(NewsItem, usize)>)
    requires
        i <= s@.len(),
    ensures
        match r {
            Some(p) => i <= p.1 <= s@.len() && sp_item(s@.skip(i as int)) == Some(
                (p.0@, s@.skip(p.1 as int)),
            ),
            None => sp_item(s@.skip(i as int)) is None,
        },
{
    let open = lit_item_open_vec();
    let j1 = match parse_lit(s, i, &open) {
        None => {
            return None;
        },
        Some(j) => j,
    };
    let (title, j2) = match parse_string_at(s, j1) {
        None => {
            return None;
        },
        Some(p) => p,
    };
    let sep_s = lit_sep_summary_vec();
    let j3 = match parse_lit(s, j2, &sep_s) {
        None => {
            return None;
        },
        Some(j) => j,
    };
    let (summary, j4) = match parse_string_at(s, j3) {
        None => {
            return None;
        },
        Some(p) => p,
    };
    let sep_d = lit_sep_date_vec();
    let j5 = match parse_lit(s, j4, &sep_d) {
        None => {
            return None;
        },
        Some(j) => j,
    };
    let (date, j6) = match parse_string_at(s, j5) {
        None => {
            return None;
        },
        Some(p) => p,
    };
    let sep_l = lit_sep_link_vec();
    let j7 = match parse_lit(s, j6, &sep_l) {
        None => {
            return None;
        },
        Some(j) => j,
    };
    let (link, j8) = match parse_string_at(s, j7) {
        None => {
            return None;
        },
        Some(p) => p,
    };
    let mut end_lit: Vec<char> = Vec::new();
    end_lit.push('}');
    proof {
        assert(end_lit@ =~= lit_item_end());
    }
    let j9 = match parse_lit(s, j8, &end_lit) {
        None => {
            return None;
        },
        Some(j) => j,
    };
    let item = NewsItem {
        title: chars_to_string(&title),
        summary: chars_to_string(&summary),
        date: chars_to_string(&date),
        link: chars_to_string(&link),
    };
    Some((item, j9))
}

/// Consumes one or more comma-separated objects from position `i`.
fn parse_items_at(s: &Vec<char>, i: usize) -> (r: Option<(Vec<NewsItem>, usize)>)
    requires
        i <= s@.len(),
    ensures
        match r {
            Some(p) => i <= p.1 <= s@.len() && sp_items(s@.skip(i as int)) == Some(
                (p.0.deep_view(), s@.skip(p.1 as int)),
            ),
            None => sp_items(s@.skip(i as int)) is None,
        },
{
    let mut acc: Vec<NewsItem> = Vec::new();
    proof {
        assert(acc.deep_view() =~= Seq::<ItemModel>::empty());
    }
    let mut cur: usize = i;
    loop
        invariant
            i <= cur <= s@.len(),
            match sp_items(s@.skip(cur as int)) {
                Some(q) => sp_items(s@.skip(i as int)) == Some((acc.deep_view() + q.0, q.1)),
                None => sp_items(s@.skip(i as int)) is None,
            },
        decreases s@.len() - cur,
    {
        match parse_item_at(s, cur) {
            None => {
                return None;
            },
            Some((item, j)) => {
                proof {
                    lemma_sp_item_consumes(s@.skip(cur as int));
                }
                let ghost prev = acc.deep_view();
                acc.push(item);
                proof {
                    assert(acc.deep_view() =~~= prev.push(item@));
                }
                if j < s.len() && s[j] == ',' {
                    proof {
                        let rj = s@.skip(j as int);
                        assert(rj[0] == s@[j as int]);
                        assert(rj.drop_first() =~= s@.skip(j + 1));
                        match sp_items(s@.skip(j + 1)) {
                            Some(q2) => {
                                assert(sp_items(s@.skip(cur as int)) == Some(
                                    (seq![item@] + q2.0, q2.1),
                                ));
                                assert(prev + (seq![item@] + q2.0) =~= acc.deep_view() + q2.0);
                            },
                            None => {
                                assert(sp_items(s@.skip(cur as int)) is None);
                            },
                        }
                    }
                    cur = j + 1;
                } else {
                    proof {
                        let rj = s@.skip(j as int);
                        if rj.len() > 0 {
                            assert(rj[0] == s@[j as int]);
                        }
                        assert(sp_items(s@.skip(cur as int)) == Some((seq![item@], rj)));
                        assert(prev + seq![item@] =~= acc.deep_view());
                    }
                    return Some((acc, j));
                }
            },
        }
    }
}

/// Parses a cache text. A text that is not exactly a well-formed array of
/// items yields the empty list: loading degrades, it never fails.
pub fn parse_news_json(text: &str) -> (items: Vec<NewsItem>)
    ensures
        items.deep_view() == spec_loaded_items(text@),
        spec_parse_items(text@) is None ==> items@.len() == 0,
        text@.len() == 0 ==> items@.len() == 0,
{
    let cs = str_to_chars(text);
    if cs.len() == 2 && cs[0] == '[' && cs[1] == ']' {
        let empty: Vec<NewsItem> = Vec::new();
        proof {
            assert(empty.deep_view() =~= Seq::<ItemModel>::empty());
        }
        return empty;
    }
    if cs.len() > 0 && cs[0] == '[' {
        match parse_items_at(&cs, 1) {
            Some((v, j)) => {
                if j == cs.len() - 1 && cs[j] == ']' {
                    proof {
                        assert(cs@.skip(j as int) =~= seq![']']);
                    }
                    return v;
                } else {
                    proof {
                        let rj = cs@.skip(j as int);
                        if rj == seq![']'] {
                            assert(rj.len() == 1);
                            assert(rj[0] == cs@[j as int]);
                            assert(false);
                        }
                    }
                    let empty: Vec<NewsItem> = Vec::new();
                    proof {
                        assert(empty.deep_view() =~= Seq::<ItemModel>::empty());
                    }
                    return empty;
                }
            },
            None => {
                let empty: Vec<NewsItem> = Vec::new();
                proof {
                    assert(empty.deep_view() =~= Seq::<ItemModel>::empty());
                }
                return empty;
            },
        }
    }
    let empty: Vec<NewsItem> = Vec::new();
    proof {
        assert(empty.deep_view() =~= Seq::<ItemModel>::empty());
    }
    empty
}

/// Renders the items as the JSON cache text.
pub fn render_news_json(items: &Vec<NewsItem>) -> (text: String)
    ensures
        text@ == spec_render_items(items.deep_view()),
{
    let ghost dv = items.deep_view();
    let mut out: Vec<char> = Vec::new();
    out.push('[');
    proof {
        assert(dv.len() == items@.len());
        assert(out@ =~= seq!['['] + spec_render_inner(dv.take(0)));
    }
    let mut i: usize = 0;
    while i < items.len()
        invariant
            i <= items@.len(),
            dv == items.deep_view(),
            dv.len() == items@.len(),
            out@ == seq!['['] + spec_render_inner(dv.take(i as int)),
        decreases items@.len() - i,
    {
        if i > 0 {
            out.push(',');
        }
        let ghost pre = out@;
        push_item(&mut out, &items[i]);
        proof {
            assert(dv[i as int] == items@[i as int]@);
            if i == 0 {
                assert(dv.take(1) =~= seq![dv[0]]);
                assert(spec_render_inner(seq![dv[0]]) == spec_render_item(dv[0]));
                assert(out@ =~= seq!['['] + spec_render_inner(dv.take(1)));
            } else {
                assert(dv.take(i + 1) =~= dv.take(i as int).push(dv[i as int]));
                lemma_render_inner_push(dv.take(i as int), dv[i as int]);
                assert(out@ =~= seq!['['] + spec_render_inner(dv.take(i + 1)));
            }
        }
        i = i + 1;
    }
    out.push(']');
    proof {
        assert(dv.take(dv.len() as int) =~= dv);
        assert(out@ =~= spec_render_items(dv));
    }
    chars_to_string(&out)
}

} // verus!
