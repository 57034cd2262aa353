//! Word, character and distinct-word statistics of a text.
use vstd::prelude::*;

verus! {

/// A character with the Unicode `White_Space` property.
pub open spec fn is_white_space(c: char) -> bool {
    ('\u{9}' <= c && c <= '\u{d}') || c == ' ' || c == '\u{85}' || c == '\u{a0}' || c
        == '\u{1680}' || ('\u{2000}' <= c && c <= '\u{200a}') || c == '\u{2028}' || c
        == '\u{2029}' || c == '\u{202f}' || c == '\u{205f}' || c == '\u{3000}'
}

/// What `str::to_lowercase` makes of a string: a function of its characters alone.
pub uninterp spec fn lower_of(s: Seq<char>) -> Seq<char>;

/// Reading `s` left to right: the words completed so far, and the run of
/// non-whitespace characters still open at its end.
pub open spec fn scan_words(s: Seq<char>) -> (Seq<Seq<char>>, Seq<char>)
    decreases s.len(),
{
    if s.len() == 0 {
        (Seq::empty(), Seq::empty())
    } else {
        let (done, open) = scan_words(s.drop_last());
        if is_white_space(s.last()) {
            if open.len() > 0 {
                (done.push(open), Seq::empty())
            } else {
                (done, open)
            }
        } else {
            (done, open.push(s.last()))
        }
    }
}

/// The maximal runs of non-whitespace characters of `s`, in order.
pub open spec fn words(s: Seq<char>) -> Seq<Seq<char>> {
    let (done, open) = scan_words(s);
    if open.len() > 0 {
        done.push(open)
    } else {
        done
    }
}

/// The words of `s`, each folded to lower case.
pub open spec fn lowered_words(s: Seq<char>) -> Seq<Seq<char>> {
    words(s).map_values(|w: Seq<char>| lower_of(w))
}

/// The number of distinct words of `s` once folded to lower case.
pub open spec fn unique_word_count(s: Seq<char>) -> nat {
    lowered_words(s).to_set().len()
}

/// A non-empty run of characters none of which is whitespace.
pub open spec fn is_word(w: Seq<char>) -> bool {
    w.len() > 0 && forall|i: int| 0 <= i < w.len() ==> !is_white_space(#[trigger] w[i])
}

proof fn lemma_scan_words_shape(s: Seq<char>)
    ensures
        forall|k: int| 0 <= k < scan_words(s).0.len() ==> is_word(#[trigger] scan_words(s).0[k]),
        forall|i: int|
            0 <= i < scan_words(s).1.len() ==> !is_white_space(#[trigger] scan_words(s).1[i]),
    decreases s.len(),
{
    if s.len() > 0 {
        let prev = s.drop_last();
        lemma_scan_words_shape(prev);
        let (done, open) = scan_words(prev);
        let c = s.last();
        if is_white_space(c) {
            if open.len() > 0 {
                assert(is_word(open));
                assert forall|k: int| 0 <= k < done.push(open).len() implies is_word(
                    #[trigger] done.push(open)[k],
                ) by {
                    if k < done.len() {
                        assert(done.push(open)[k] == done[k]);
                    }
                }
            }
        } else {
            assert forall|i: int| 0 <= i < open.push(c).len() implies !is_white_space(
                #[trigger] open.push(c)[i],
            ) by {
                if i < open.len() {
                    assert(open.push(c)[i] == open[i]);
                }
            }
        }
    }
}

/// Every word of a text is a non-empty run of non-whitespace characters.
pub proof fn lemma_words_are_words(s: Seq<char>)
    ensures
        forall|k: int| 0 <= k < words(s).len() ==> is_word(#[trigger] words(s)[k]),
{
    lemma_scan_words_shape(s);
}

/// Text made of whitespace alone, the empty text included, has no words.
pub proof fn lemma_blank_text_has_no_words(s: Seq<char>)
    requires
        forall|i: int| 0 <= i < s.len() ==> is_white_space(#[trigger] s[i]),
    ensures
        scan_words(s).0.len() == 0,
        scan_words(s).1.len() == 0,
        words(s).len() == 0,
        unique_word_count(s) == 0,
    decreases s.len(),
{
    if s.len() > 0 {
        lemma_blank_text_has_no_words(s.drop_last());
        assert(is_white_space(s[s.len() - 1]));
    }
    assert(lowered_words(s).to_set() =~= Set::empty());
}

/// The character views of a list of character vectors.
pub open spec fn views(v: Seq<Vec<char>>) -> Seq<Seq<char>> {
    v.map_values(|w: Vec<char>| w@)
}

/// Statistics of a text.
pub struct TextStats {
    /// Number of whitespace-separated words.
    pub word_count: usize,
    /// Number of Unicode scalar values.
    pub char_count: usize,
    /// Number of distinct words after folding to lower case.
    pub unique_word_count: usize,
}

/// The decimal digit character for `d < 10`.
pub open spec fn digit_char(d: nat) -> char {
    seq!['0', '1', '2', '3', '4', '5', '6', '7', '8', '9'][d as int]
}

/// The decimal rendering of `v`, without leading zeros.
pub open spec fn decimal(v: nat) -> Seq<char>
    decreases v,
{
    if v < 10 {
        seq![digit_char(v)]
    } else {
        decimal(v / 10).push(digit_char(v % 10))
    }
}

/// The one-line summary of a set of statistics.
pub open spec fn summary(words: nat, chars: nat, unique: nat) -> Seq<char> {
    "Words: "@ + decimal(words) + ", Chars: "@ + decimal(chars) + ", Unique: "@ + decimal(unique)
}

/// Whether `c` has the Unicode `White_Space` property, as `char::is_whitespace` answers.
pub fn char_is_white_space(c: char) -> (r: bool)
    ensures
        r == is_white_space(c),
{
    ('\u{9}' <= c && c <= '\u{d}') || c == ' ' || c == '\u{85}' || c == '\u{a0}' || c
        == '\u{1680}' || ('\u{2000}' <= c && c <= '\u{200a}') || c == '\u{2028}' || c
        == '\u{2029}' || c == '\u{202f}' || c == '\u{205f}' || c == '\u{3000}'
}

/// Relies on str::to_lowercase: the folded word depends on its characters alone.
#[verifier::external_body]
fn lowercase_word(w: &Vec<char>) -> (r: String)
    ensures
        r@ == lower_of(w@),
{
    let s: String = w.iter().collect();
    s.to_lowercase()
}

/// Relies on String's `FromIterator<&char>`: the characters, in order.
#[verifier::external_body]
fn string_of_chars(v: &Vec<char>) -> (r: String)
    ensures
        r@ == v@,
{
    v.iter().collect()
}

/// Appends the decimal digits of `v` to `out`.
pub fn push_decimal(out: &mut Vec<char>, v: usize)
    ensures
        final(out)@ == old(out)@ + decimal(v as nat),
    decreases v,
{
    let digits: [char; 10] = ['0', '1', '2', '3', '4', '5', '6', '7', '8', '9'];
    assert(digits@ == seq!['0', '1', '2', '3', '4', '5', '6', '7', '8', '9']);
    if v >= 10 {
        push_decimal(out, v / 10);
    }
    out.push(digits[v % 10]);
    assert(out@ =~= old(out)@ + decimal(v as nat));
}

/// Appends the characters of `s` to `out`.
fn push_str_chars(out: &mut Vec<char>, s: &str)
    ensures
        final(out)@ == old(out)@ + s@,
{
    let cs = text_chars(s);
    let mut k: usize = 0;
    while k < cs.len()
        invariant
            k <= cs.len(),
            cs@ == s@,
            out@ == old(out)@ + cs@.take(k as int),
        decreases cs.len() - k,
    {
        out.push(cs[k]);
        assert(cs@.take(k + 1) == cs@.take(k as int).push(cs@[k as int]));
        k = k + 1;
    }
    assert(cs@.take(cs.len() as int) == cs@);
}

/// The one-line summary `Words: w, Chars: c, Unique: u`.
pub fn format_summary(words: usize, chars: usize, unique: usize) -> (r: String)
    ensures
        r@ == summary(words as nat, chars as nat, unique as nat),
{
    let mut out: Vec<char> = Vec::new();
    push_str_chars(&mut out, "Words: ");
    push_decimal(&mut out, words);
    push_str_chars(&mut out, ", Chars: ");
    push_decimal(&mut out, chars);
    push_str_chars(&mut out, ", Unique: ");
    push_decimal(&mut out, unique);
    assert(out@ =~= summary(words as nat, chars as nat, unique as nat));
    string_of_chars(&out)
}

/// The characters of `text`, in order.
pub fn text_chars(text: &str) -> (r: Vec<char>)
    ensures
        r@ == text@,
{
    let mut r: Vec<char> = Vec::new();
    for c in it: text.chars()
        invariant
            it.seq() == text@,
            r@ == it.seq().take(it.index() as int),
    {
        r.push(c);
    }
    r
}

/// Splits a character sequence into its maximal runs of non-whitespace characters.
pub fn split_words(chars: &Vec<char>) -> (r: Vec<Vec<char>>)
    ensures
        views(r@) == words(chars@),
{
    let mut done: Vec<Vec<char>> = Vec::new();
    let mut open: Vec<char> = Vec::new();
    let mut i: usize = 0;
    while i < chars.len()
        invariant
            i <= chars.len(),
            (views(done@), open@) == scan_words(chars@.take(i as int)),
        decreases chars.len() - i,
    {
        let c = chars[i];
        let ghost prefix = chars@.take(i as int);
        assert(chars@.take(i + 1).drop_last() == prefix);
        if char_is_white_space(c) {
            if open.len() > 0 {
                done.push(open);
                open = Vec::new();
                assert(views(done@) == scan_words(prefix).0.push(scan_words(prefix).1));
            }
        } else {
            open.push(c);
        }
        i = i + 1;
    }
    assert(chars@.take(chars.len() as int) == chars@);
    if open.len() > 0 {
        done.push(open);
        assert(views(done@) == words(chars@));
    }
    done
}

/// Each of `ws` folded to lower case.
pub fn lower_words(ws: &Vec<Vec<char>>) -> (r: Vec<String>)
    ensures
        r@.map_values(|s: String| s@) == views(ws@).map_values(|w: Seq<char>| lower_of(w)),
{
    let mut r: Vec<String> = Vec::new();
    let mut k: usize = 0;
    while k < ws.len()
        invariant
            k <= ws.len(),
            r@.map_values(|s: String| s@) == views(ws@).map_values(|w: Seq<char>| lower_of(w)).take(
                k as int,
            ),
        decreases ws.len() - k,
    {
        let lw = lowercase_word(&ws[k]);
        let ghost before = r@;
        r.push(lw);
        assert(views(ws@)[k as int] == ws@[k as int]@);
        assert(r@.map_values(|s: String| s@) =~= before.map_values(|s: String| s@).push(lw@));
        assert(r@.map_values(|s: String| s@) =~= views(ws@).map_values(
            |w: Seq<char>| lower_of(w),
        ).take(k + 1));
        k = k + 1;
    }
    assert(r@.map_values(|s: String| s@) =~= views(ws@).map_values(|w: Seq<char>| lower_of(w)));
    r
}

/// The number of distinct strings among `ws`.
pub fn count_distinct(ws: &Vec<String>) -> (r: usize)
    ensures
        r == ws@.map_values(|s: String| s@).to_set().len(),
{
    let ghost lowered = ws@.map_values(|s: String| s@);
    let mut seen: Vec<String> = Vec::new();
    let mut k: usize = 0;
    while k < ws.len()
        invariant
            k <= ws.len(),
            lowered == ws@.map_values(|s: String| s@),
            seen@.map_values(|s: String| s@).no_duplicates(),
            seen@.map_values(|s: String| s@).to_set() == lowered.take(k as int).to_set(),
        decreases ws.len() - k,
    {
        let lw = ws[k].clone();
        assert(lw@ == lowered[k as int]);
        let mut found = false;
        let mut m: usize = 0;
        while m < seen.len()
            invariant
                m <= seen.len(),
                found == exists|x: int| 0 <= x < m && seen@[x]@ == lw@,
            decreases seen.len() - m,
        {
            if seen[m] == lw {
                found = true;
            }
            m = m + 1;
        }
        let ghost before = seen@.map_values(|s: String| s@);
        assert(lowered.take(k + 1) == lowered.take(k as int).push(lw@));
        proof {
            lowered.take(k as int).lemma_push_to_set_commute(lw@);
            before.lemma_push_to_set_commute(lw@);
        }
        if !found {
            seen.push(lw);
            assert(seen@.map_values(|s: String| s@) == before.push(lw@));
            assert(!before.contains(lw@)) by {
                if before.contains(lw@) {
                    let x = choose|x: int| 0 <= x < before.len() && before[x] == lw@;
                    assert(seen@[x]@ == lw@);
                }
            }
            assert(seen@.map_values(|s: String| s@).to_set() =~= before.to_set().insert(lw@));
            assert(lowered.take(k + 1).to_set() =~= lowered.take(k as int).to_set().insert(lw@));
        } else {
            proof {
                let x = choose|x: int| 0 <= x < seen.len() && seen@[x]@ == lw@;
                assert(before[x] == lw@);
                assert(lowered.take(k + 1).to_set() =~= lowered.take(k as int).to_set().insert(
                    lw@,
                ));
                assert(before.to_set().contains(lw@));
                assert(before.to_set().insert(lw@) =~= before.to_set());
            }
        }
        k = k + 1;
    }
    proof {
        assert(lowered.take(ws.len() as int) == lowered);
        seen@.map_values(|s: String| s@).unique_seq_to_set();
    }
    seen.len()
}

/// Word count, character count and distinct lower-cased word count of `text`.
pub fn text_stats(text: &str) -> (r: TextStats)
    ensures
        r.word_count == words(text@).len(),
        r.char_count == text@.len(),
        r.unique_word_count == unique_word_count(text@),
{
    let chars = text_chars(text);
    let ws = split_words(&chars);
    let lowered = lower_words(&ws);
    let unique = count_distinct(&lowered);
    assert(lowered_words(text@) == views(ws@).map_values(|w: Seq<char>| lower_of(w)));
    TextStats { word_count: ws.len(), char_count: chars.len(), unique_word_count: unique }
}

/// The statistics of `text` as one line: `Words: w, Chars: c, Unique: u`.
pub fn analyze_text(text: &str) -> (r: String)
    ensures
        r@ == summary(
            words(text@).len(),
            text@.len(),
            unique_word_count(text@),
        ),
{
    let stats = text_stats(text);
    format_summary(stats.word_count, stats.char_count, stats.unique_word_count)
}

} // verus!
