//! Character-level text utilities: whitespace, trimming, and splitting a
//! text into words, with the lemmas that relate splitting and joining.

use vstd::prelude::*;
use vstd::string::StrSliceExecFns;

verus! {

/// Relies on std's `String::push`: it appends exactly the one character.
#[verifier::external_body]
fn push_char(s: &mut String, c: char)
    ensures
        final(s)@ == old(s)@.push(c),
{
    s.push(c);
}

/// Builds the `String` holding exactly the characters of `v`.
pub fn chars_to_string(v: &Vec<char>) -> (s: String)
    ensures
        s@ == v@,
{
    let mut s = String::new();
    let mut i: usize = 0;
    while i < v.len()
        invariant
            i <= v@.len(),
            s@ == v@.take(i as int),
        decreases v@.len() - i,
    {
        push_char(&mut s, v[i]);
        proof {
            assert(v@.take(i + 1) =~= v@.take(i as int).push(v@[i as int]));
        }
        i = i + 1;
    }
    proof {
        assert(v@.take(v@.len() as int) =~= v@);
    }
    s
}

/// Collects the characters of `s` into a vector.
pub fn str_to_chars(s: &str) -> (v: Vec<char>)
    ensures
        v@ == s@,
{
    let n = s.unicode_len();
    let mut v: Vec<char> = Vec::new();
    let mut i: usize = 0;
    while i < n
        invariant
            i <= s@.len(),
            n == s@.len(),
            v@ == s@.take(i as int),
        decreases s@.len() - i,
    {
        v.push(s.get_char(i));
        proof {
            assert(s@.take(i + 1) =~= s@.take(i as int).push(s@[i as int]));
        }
        i = i + 1;
    }
    proof {
        assert(s@.take(s@.len() as int) =~= s@);
    }
    v
}

/// Compares two string slices by their characters.
pub fn str_eq(a: &str, b: &str) -> (r: bool)
    ensures
        r == (a@ == b@),
{
    let na = a.unicode_len();
    let nb = b.unicode_len();
    if na != nb {
        return false;
    }
    let mut i: usize = 0;
    while i < na
        invariant
            i <= na,
            na == a@.len(),
            na == b@.len(),
            forall|j: int| 0 <= j < i ==> a@[j] == b@[j],
        decreases na - i,
    {
        if a.get_char(i) != b.get_char(i) {
            return false;
        }
        i = i + 1;
    }
    proof {
        assert(a@ =~= b@);
    }
    true
}

/// The characters treated as whitespace when trimming and splitting words:
/// the Unicode `White_Space` set.
pub open spec fn is_space_char(c: char) -> bool {
    ||| c as u32 == 0x09
    ||| c as u32 == 0x0A
    ||| c as u32 == 0x0B
    ||| c as u32 == 0x0C
    ||| c as u32 == 0x0D
    ||| c as u32 == 0x20
    ||| c as u32 == 0x85
    ||| c as u32 == 0xA0
    ||| c as u32 == 0x1680
    ||| (0x2000 <= c as u32 && c as u32 <= 0x200A)
    ||| c as u32 == 0x2028
    ||| c as u32 == 0x2029
    ||| c as u32 == 0x202F
    ||| c as u32 == 0x205F
    ||| c as u32 == 0x3000
}

/// Decides whether `c` counts as whitespace.
pub fn is_space(c: char) -> (r: bool)
    ensures
        r == is_space_char(c),
{
    let u = c as u32;
    u == 0x09 || u == 0x0A || u == 0x0B || u == 0x0C || u == 0x0D || u == 0x20 || u == 0x85
        || u == 0xA0 || u == 0x1680 || (0x2000 <= u && u <= 0x200A) || u == 0x2028 || u == 0x2029
        || u == 0x202F || u == 0x205F || u == 0x3000
}

/// `s` with its leading whitespace removed.
pub open spec fn trim_front(s: Seq<char>) -> Seq<char>
    decreases s.len(),
{
    if s.len() > 0 && is_space_char(s[0]) {
        trim_front(s.drop_first())
    } else {
        s
    }
}

/// `s` with its trailing whitespace removed.
pub open spec fn trim_back(s: Seq<char>) -> Seq<char>
    decreases s.len(),
{
    if s.len() > 0 && is_space_char(s.last()) {
        trim_back(s.drop_last())
    } else {
        s
    }
}

/// `s` with surrounding whitespace removed.
pub open spec fn trim_of(s: Seq<char>) -> Seq<char> {
    trim_back(trim_front(s))
}

/// The length of the maximal whitespace-free prefix of `s`.
pub open spec fn word_len(s: Seq<char>) -> nat
    decreases s.len(),
{
    if s.len() > 0 && !is_space_char(s[0]) {
        1 + word_len(s.drop_first())
    } else {
        0
    }
}

pub proof fn lemma_word_len_bounds(s: Seq<char>)
    ensures
        word_len(s) <= s.len(),
        s.len() > 0 && !is_space_char(s[0]) ==> word_len(s) >= 1,
        forall|j: int| 0 <= j < word_len(s) ==> !is_space_char(#[trigger] s[j]),
        word_len(s) < s.len() ==> is_space_char(s[word_len(s) as int]),
    decreases s.len(),
{
    if s.len() > 0 && !is_space_char(s[0]) {
        lemma_word_len_bounds(s.drop_first());
        assert forall|j: int| 0 <= j < word_len(s) implies !is_space_char(#[trigger] s[j]) by {
            if j > 0 {
                assert(s.drop_first()[j - 1] == s[j]);
            }
        }
        if word_len(s) < s.len() {
            assert(s.drop_first()[word_len(s) as int - 1] == s[word_len(s) as int]);
        }
    }
}

/// The words of `s`: the maximal whitespace-free runs, in order.
pub open spec fn words_of(s: Seq<char>) -> Seq<Seq<char>>
    decreases s.len(),
    via words_of_decreases
{
    if s.len() == 0 {
        Seq::empty()
    } else if is_space_char(s[0]) {
        words_of(s.drop_first())
    } else {
        seq![s.take(word_len(s) as int)] + words_of(s.skip(word_len(s) as int))
    }
}

#[via_fn]
proof fn words_of_decreases(s: Seq<char>) {
    if s.len() > 0 && !is_space_char(s[0]) {
        lemma_word_len_bounds(s);
    }
}

/// The words joined back together with single spaces.
pub open spec fn join_words(ws: Seq<Seq<char>>) -> Seq<char>
    decreases ws.len(),
{
    if ws.len() == 0 {
        Seq::empty()
    } else if ws.len() == 1 {
        ws[0]
    } else {
        ws[0] + seq![' '] + join_words(ws.drop_first())
    }
}

/// A well-formed word: nonempty and free of whitespace.
pub open spec fn wf_word(w: Seq<char>) -> bool {
    w.len() > 0 && forall|j: int| 0 <= j < w.len() ==> !is_space_char(#[trigger] w[j])
}

/// Every word produced by `words_of` is nonempty and free of whitespace.
pub proof fn lemma_words_wellformed(s: Seq<char>)
    ensures
        forall|i: int| 0 <= i < words_of(s).len() ==> wf_word(#[trigger] words_of(s)[i]),
    decreases s.len(),
{
    if s.len() == 0 {
        assert(words_of(s).len() == 0);
    } else if is_space_char(s[0]) {
        lemma_words_wellformed(s.drop_first());
        assert(words_of(s) == words_of(s.drop_first()));
    } else {
        lemma_word_len_bounds(s);
        lemma_words_wellformed(s.skip(word_len(s) as int));
        let w = s.take(word_len(s) as int);
        assert forall|j: int| 0 <= j < w.len() implies !is_space_char(#[trigger] w[j]) by {
            assert(w[j] == s[j]);
        }
        assert(wf_word(w));
        assert forall|i: int| 0 <= i < words_of(s).len() implies wf_word(
            #[trigger] words_of(s)[i],
        ) by {
            if i == 0 {
                assert(words_of(s)[0] == w);
            } else {
                assert(words_of(s)[i] == words_of(s.skip(word_len(s) as int))[i - 1]);
            }
        }
    }
}

/// A whitespace-free sequence is a single word of its own length.
proof fn lemma_word_len_full(s: Seq<char>)
    requires
        forall|j: int| 0 <= j < s.len() ==> !is_space_char(#[trigger] s[j]),
    ensures
        word_len(s) == s.len(),
    decreases s.len(),
{
    if s.len() > 0 {
        assert forall|j: int| 0 <= j < s.drop_first().len() implies !is_space_char(
            #[trigger] s.drop_first()[j],
        ) by {
            assert(s.drop_first()[j] == s[j + 1]);
        }
        lemma_word_len_full(s.drop_first());
    }
}

/// The maximal word at the front of `a + b`, where `a` is whitespace-free
/// and `b` is empty or opens with whitespace, is exactly `a`.
proof fn lemma_word_len_concat(a: Seq<char>, b: Seq<char>)
    requires
        forall|j: int| 0 <= j < a.len() ==> !is_space_char(#[trigger] a[j]),
        b.len() == 0 || is_space_char(b[0]),
    ensures
        word_len(a + b) == a.len(),
    decreases a.len(),
{
    if a.len() == 0 {
        assert(a + b =~= b);
    } else {
        assert((a + b)[0] == a[0]);
        assert((a + b).drop_first() =~= a.drop_first() + b);
        assert forall|j: int| 0 <= j < a.drop_first().len() implies !is_space_char(
            #[trigger] a.drop_first()[j],
        ) by {
            assert(a.drop_first()[j] == a[j + 1]);
        }
        lemma_word_len_concat(a.drop_first(), b);
    }
}

/// Splitting the joined words gives the words back, provided each is
/// nonempty and whitespace-free.
pub proof fn lemma_words_of_join(ws: Seq<Seq<char>>)
    requires
        forall|i: int| 0 <= i < ws.len() ==> wf_word(#[trigger] ws[i]),
    ensures
        words_of(join_words(ws)) == ws,
    decreases ws.len(),
{
    if ws.len() == 0 {
        assert(words_of(join_words(ws)) =~= ws);
    } else if ws.len() == 1 {
        let w = ws[0];
        assert(wf_word(w));
        lemma_word_len_full(w);
        assert(join_words(ws) == w);
        assert(!is_space_char(w[0]));
        assert(w.take(w.len() as int) =~= w);
        assert(w.skip(w.len() as int) =~= Seq::<char>::empty());
        assert(words_of(w) == seq![w.take(word_len(w) as int)] + words_of(
            w.skip(word_len(w) as int),
        ));
        assert(words_of(Seq::<char>::empty()) =~= Seq::<Seq<char>>::empty());
        assert(words_of(w) =~= seq![w]);
        assert(ws =~= seq![w]);
    } else {
        let w = ws[0];
        assert(wf_word(w));
        let rest = join_words(ws.drop_first());
        let s = join_words(ws);
        assert(s == w + seq![' '] + rest);
        assert(s =~= w + (seq![' '] + rest));
        assert((seq![' '] + rest)[0] == ' ');
        lemma_word_len_concat(w, seq![' '] + rest);
        assert(word_len(s) == w.len());
        assert(s[0] == w[0]);
        assert(!is_space_char(s[0]));
        assert(s.take(w.len() as int) =~= w);
        assert(s.skip(w.len() as int) =~= seq![' '] + rest);
        assert(words_of(s) == seq![s.take(word_len(s) as int)] + words_of(
            s.skip(word_len(s) as int),
        ));
        assert(words_of(s) == seq![w] + words_of(seq![' '] + rest));
        assert((seq![' '] + rest).drop_first() =~= rest);
        assert(words_of(seq![' '] + rest) == words_of(rest));
        assert forall|i: int| 0 <= i < ws.drop_first().len() implies wf_word(
            #[trigger] ws.drop_first()[i],
        ) by {
            assert(ws.drop_first()[i] == ws[i + 1]);
        }
        lemma_words_of_join(ws.drop_first());
        assert(words_of(s) == seq![w] + ws.drop_first());
        assert(seq![w] + ws.drop_first() =~= ws);
    }
}

/// Appending one more word to a nonempty list inserts one separating space.
pub proof fn lemma_join_words_push(ws: Seq<Seq<char>>, w: Seq<char>)
    requires
        ws.len() >= 1,
    ensures
        join_words(ws.push(w)) == join_words(ws) + seq![' '] + w,
    decreases ws.len(),
{
    if ws.len() == 1 {
        assert(ws.push(w)[0] == ws[0]);
        assert(ws.push(w).drop_first() =~= seq![w]);
        assert(join_words(seq![w]) == w);
        assert(join_words(ws.push(w)) == ws[0] + seq![' '] + w);
        assert(join_words(ws) == ws[0]);
    } else {
        assert(ws.push(w)[0] == ws[0]);
        assert(ws.push(w).drop_first() =~= ws.drop_first().push(w));
        lemma_join_words_push(ws.drop_first(), w);
        assert(join_words(ws.push(w)) == ws[0] + seq![' '] + (join_words(ws.drop_first())
            + seq![' '] + w));
        assert(ws[0] + seq![' '] + (join_words(ws.drop_first()) + seq![' '] + w) =~= (ws[0]
            + seq![' '] + join_words(ws.drop_first())) + seq![' '] + w);
    }
}

/// The greatest number of words a summary keeps before truncation.
pub const SUMMARY_WORD_LIMIT: usize = 100;

/// The marker appended to a truncated summary.
pub open spec fn ellipsis() -> Seq<char> {
    seq!['.', '.', '.']
}

/// What a summary becomes: a text of at most `SUMMARY_WORD_LIMIT` words is
/// trimmed of surrounding whitespace; a longer one keeps its first
/// `SUMMARY_WORD_LIMIT` words, joined by single spaces, with the truncation
/// marker appended.
pub open spec fn spec_clean_summary(s: Seq<char>) -> Seq<char> {
    if words_of(s).len() > SUMMARY_WORD_LIMIT {
        join_words(words_of(s).take(SUMMARY_WORD_LIMIT as int)) + ellipsis()
    } else {
        trim_of(s)
    }
}

/// The maximal whitespace-free prefix is delimited by the first whitespace
/// character (or the end).
proof fn lemma_word_len_of_prefix(u: Seq<char>, k: int)
    requires
        0 <= k <= u.len(),
        forall|j: int| 0 <= j < k ==> !is_space_char(#[trigger] u[j]),
        k == u.len() || is_space_char(u[k]),
    ensures
        word_len(u) == k,
    decreases k,
{
    if k > 0 {
        assert(!is_space_char(u[0]));
        assert forall|j: int| 0 <= j < k - 1 implies !is_space_char(
            #[trigger] u.drop_first()[j],
        ) by {
            assert(u.drop_first()[j] == u[j + 1]);
        }
        if k < u.len() {
            assert(u.drop_first()[k - 1] == u[k]);
        }
        lemma_word_len_of_prefix(u.drop_first(), k - 1);
    }
}

/// Splits `s` into its words.
fn collect_words(s: &Vec<char>) -> (ws: Vec<Vec<char>>)
    ensures
        ws.deep_view() == words_of(s@),
{
    let mut ws: Vec<Vec<char>> = Vec::new();
    proof {
        assert(s@.skip(0) =~= s@);
        assert(ws.deep_view() =~= Seq::<Seq<char>>::empty());
    }
    let mut i: usize = 0;
    while i < s.len()
        invariant
            i <= s@.len(),
            words_of(s@) == ws.deep_view() + words_of(s@.skip(i as int)),
        decreases s@.len() - i,
    {
        if is_space(s[i]) {
            proof {
                assert(s@.skip(i as int)[0] == s@[i as int]);
                assert(s@.skip(i as int).drop_first() =~= s@.skip(i + 1));
            }
            i = i + 1;
        } else {
            let start = i;
            let mut w: Vec<char> = Vec::new();
            proof {
                assert(s@.subrange(start as int, start as int) =~= Seq::<char>::empty());
            }
            while i < s.len() && !is_space(s[i])
                invariant
                    start <= i <= s@.len(),
                    w@ == s@.subrange(start as int, i as int),
                    forall|j: int| start <= j < i ==> !is_space_char(#[trigger] s@[j]),
                    words_of(s@) == ws.deep_view() + words_of(s@.skip(start as int)),
                    !is_space_char(s@[start as int]),
                decreases s@.len() - i,
            {
                w.push(s[i]);
                proof {
                    assert(s@.subrange(start as int, i + 1) =~= s@.subrange(
                        start as int,
                        i as int,
                    ).push(s@[i as int]));
                }
                i = i + 1;
            }
            let ghost prev = ws.deep_view();
            proof {
                let u = s@.skip(start as int);
                assert forall|j: int| 0 <= j < (i - start) implies !is_space_char(
                    #[trigger] u[j],
                ) by {
                    assert(u[j] == s@[j + start]);
                }
                if i < s@.len() {
                    assert(u[i - start as int] == s@[i as int]);
                }
                lemma_word_len_of_prefix(u, i - start as int);
                assert(u[0] == s@[start as int]);
                assert(words_of(u) == seq![u.take(word_len(u) as int)] + words_of(
                    u.skip(word_len(u) as int),
                ));
                assert(u.take(i - start as int) =~= s@.subrange(start as int, i as int));
                assert(u.skip(i - start as int) =~= s@.skip(i as int));
            }
            ws.push(w);
            proof {
                assert(ws.deep_view() =~~= prev.push(w@));
                assert(prev + (seq![w@] + words_of(s@.skip(i as int))) =~= prev.push(w@)
                    + words_of(s@.skip(i as int)));
            }
        }
    }
    proof {
        assert(s@.skip(i as int) =~= Seq::<char>::empty());
        assert(words_of(Seq::<char>::empty()).len() == 0);
        assert(words_of(s@) =~= ws.deep_view());
    }
    ws
}

/// Cleans a summary: trims it, or truncates it to the word limit with the
/// marker appended.
pub fn clean_summary(s: &Vec<char>) -> (r: Vec<char>)
    ensures
        r@ == spec_clean_summary(s@),
{
    let ws = collect_words(s);
    proof {
        assert(ws.deep_view().len() == ws@.len());
    }
    if ws.len() > SUMMARY_WORD_LIMIT {
        let ghost wsd = ws.deep_view();
        let mut out: Vec<char> = Vec::new();
        let mut j: usize = 0;
        while j < SUMMARY_WORD_LIMIT
            invariant
                j <= SUMMARY_WORD_LIMIT,
                SUMMARY_WORD_LIMIT < ws@.len(),
                wsd == ws.deep_view(),
                wsd.len() == ws@.len(),
                j == 0 ==> out@ == Seq::<char>::empty(),
                j >= 1 ==> out@ == join_words(wsd.take(j as int)),
            decreases SUMMARY_WORD_LIMIT - j,
        {
            if j > 0 {
                out.push(' ');
            }
            let ghost base = out@;
            let mut k: usize = 0;
            while k < ws[j].len()
                invariant
                    j < ws@.len(),
                    k <= ws@[j as int]@.len(),
                    out@ == base + ws@[j as int]@.take(k as int),
                decreases ws@[j as int]@.len() - k,
            {
                out.push(ws[j][k]);
                proof {
                    assert(ws@[j as int]@.take(k + 1) =~= ws@[j as int]@.take(k as int).push(
                        ws@[j as int]@[k as int],
                    ));
                }
                k = k + 1;
            }
            proof {
                assert(ws@[j as int]@.take(ws@[j as int]@.len() as int) =~= ws@[j as int]@);
                assert(wsd[j as int] =~= ws@[j as int]@);
                if j == 0 {
                    assert(wsd.take(1) =~= seq![wsd[0]]);
                    assert(join_words(seq![wsd[0]]) == wsd[0]);
                    assert(out@ == wsd[0]);
                } else {
                    assert(wsd.take(j + 1) =~= wsd.take(j as int).push(wsd[j as int]));
                    lemma_join_words_push(wsd.take(j as int), wsd[j as int]);
                    assert(out@ == (join_words(wsd.take(j as int)) + seq![' ']) + wsd[j as int]);
                    assert((join_words(wsd.take(j as int)) + seq![' ']) + wsd[j as int]
                        =~= join_words(wsd.take(j as int)) + seq![' '] + wsd[j as int]);
                }
            }
            j = j + 1;
        }
        out.push('.');
        out.push('.');
        out.push('.');
        proof {
            assert(out@ =~= join_words(wsd.take(SUMMARY_WORD_LIMIT as int)) + ellipsis());
        }
        out
    } else {
        trim_chars(s)
    }
}

/// A summary within the word limit comes out exactly as the trimmed input.
pub proof fn lemma_summary_within_limit(s: Seq<char>)
    requires
        words_of(s).len() <= SUMMARY_WORD_LIMIT,
    ensures
        spec_clean_summary(s) == trim_of(s),
{
}

/// A summary over the word limit keeps exactly the first
/// `SUMMARY_WORD_LIMIT` words: splitting the truncated text (marker aside)
/// gives those words back.
pub proof fn lemma_summary_truncated(s: Seq<char>)
    requires
        words_of(s).len() > SUMMARY_WORD_LIMIT,
    ensures
        spec_clean_summary(s) == join_words(words_of(s).take(SUMMARY_WORD_LIMIT as int))
            + ellipsis(),
        words_of(s).take(SUMMARY_WORD_LIMIT as int).len() == SUMMARY_WORD_LIMIT,
        words_of(join_words(words_of(s).take(SUMMARY_WORD_LIMIT as int))) == words_of(s).take(
            SUMMARY_WORD_LIMIT as int,
        ),
{
    let kept = words_of(s).take(SUMMARY_WORD_LIMIT as int);
    lemma_words_wellformed(s);
    assert forall|i: int| 0 <= i < kept.len() implies wf_word(#[trigger] kept[i]) by {
        assert(kept[i] == words_of(s)[i]);
    }
    lemma_words_of_join(kept);
}

/// Trims `s` of surrounding whitespace.
pub fn trim_chars(s: &Vec<char>) -> (r: Vec<char>)
    ensures
        r@ == trim_of(s@),
{
    proof {
        assert(s@.skip(0) =~= s@);
    }
    let mut start: usize = 0;
    while start < s.len() && is_space(s[start])
        invariant
            start <= s@.len(),
            trim_front(s@) == trim_front(s@.skip(start as int)),
        decreases s@.len() - start,
    {
        proof {
            assert(s@.skip(start as int).drop_first() =~= s@.skip(start as int + 1));
            assert(s@.skip(start as int)[0] == s@[start as int]);
        }
        start = start + 1;
    }
    let u = Ghost(s@.skip(start as int));
    proof {
        if start < s@.len() {
            assert(u@[0] == s@[start as int]);
        }
        assert(trim_front(s@) == u@);
    }
    let mut end: usize = s.len();
    proof {
        assert(u@.take(end - start as int) =~= u@);
    }
    while end > start && is_space(s[end - 1])
        invariant
            start <= end <= s@.len(),
            u@ == s@.skip(start as int),
            trim_back(u@) == trim_back(u@.take(end - start as int)),
        decreases end,
    {
        proof {
            let t = u@.take(end - start as int);
            assert(t.last() == s@[end - 1]);
            assert(t.drop_last() =~= u@.take(end - 1 - start as int));
        }
        end = end - 1;
    }
    proof {
        let t = u@.take(end - start as int);
        if end > start {
            assert(t.last() == s@[end - 1]);
        }
        assert(trim_back(t) == t);
    }
    let mut r: Vec<char> = Vec::new();
    proof {
        assert(s@.subrange(start as int, start as int) =~= Seq::<char>::empty());
    }
    let mut i: usize = start;
    while i < end
        invariant
            start <= i <= end <= s@.len(),
            r@ == s@.subrange(start as int, i as int),
        decreases end - i,
    {
        r.push(s[i]);
        proof {
            assert(s@.subrange(start as int, i + 1) =~= s@.subrange(start as int, i as int).push(
                s@[i as int],
            ));
        }
        i = i + 1;
    }
    proof {
        assert(r@ =~= u@.take(end - start as int));
    }
    r
}

} // verus!
