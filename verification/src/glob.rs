//! Name filters: substring search without a `*` in the pattern, a
//! left-to-right wildcard scan with one. Both ignore ASCII case.
use vstd::prelude::*;
use crate::text::{
    contains_chars, contains_text, find_from, first_occurrence, lemma_first_occurrence, lower,
    lower_chars_of, stands_at,
};

verus! {

/// The pieces of `s` between the occurrences of `sep`: one more piece than
/// there are separators, empty pieces included.
pub open spec fn split_on(s: Seq<char>, sep: char) -> Seq<Seq<char>>
    decreases s.len(),
{
    if s.len() == 0 {
        seq![Seq::empty()]
    } else {
        let before = split_on(s.drop_last(), sep);
        if s.last() == sep {
            before.push(Seq::empty())
        } else {
            before.update(before.len() - 1, before.last().push(s.last()))
        }
    }
}

/// The index in `text` just behind the first `k` segments, each non-empty
/// one placed at its first occurrence at or after the end of the one before
/// it. `None` where a segment is not found, or where the pattern's first
/// segment is non-empty and does not stand at index 0.
pub open spec fn scan_segments(segs: Seq<Seq<char>>, text: Seq<char>, k: int) -> Option<int>
    decreases k,
{
    if k <= 0 {
        Some(0)
    } else {
        match scan_segments(segs, text, k - 1) {
            None => None,
            Some(pos) => {
                let seg = segs[k - 1];
                if seg.len() == 0 {
                    Some(pos)
                } else {
                    match first_occurrence(text, seg, pos) {
                        None => None,
                        Some(idx) => if k == 1 && idx != 0 {
                            None
                        } else {
                            Some(idx + seg.len())
                        },
                    }
                }
            },
        }
    }
}

/// The wildcard match on texts as they stand (case is not folded here).
/// Without a `*` the pattern must equal the text. With one, the segments are
/// scanned from the left, and a pattern that does not end in `*` must bring
/// the scan exactly to the end of the text.
pub open spec fn wildcard_matches(pattern: Seq<char>, text: Seq<char>) -> bool {
    let segs = split_on(pattern, '*');
    if segs.len() == 1 {
        text == pattern
    } else {
        match scan_segments(segs, text, segs.len() as int) {
            None => false,
            Some(pos) => segs.last().len() == 0 || pos == text.len(),
        }
    }
}

/// The wildcard match, ASCII case ignored on both sides.
pub open spec fn glob_matches(pattern: Seq<char>, text: Seq<char>) -> bool {
    wildcard_matches(lower(pattern), lower(text))
}

/// Whether a node name passes the filter: a wildcard match where the filter
/// holds a `*`, else the filter standing somewhere in the name; ASCII case
/// ignored.
pub open spec fn name_matches(name: Seq<char>, filter: Seq<char>) -> bool {
    if filter.contains('*') {
        glob_matches(filter, name)
    } else {
        contains_text(lower(name), lower(filter))
    }
}

/// The character sequences of a list of character vectors.
pub open spec fn rows(v: Seq<Vec<char>>) -> Seq<Seq<char>> {
    Seq::new(v.len(), |i: int| v[i]@)
}

/// A failed scan stays failed however many more segments are taken.
pub proof fn lemma_scan_stays_failed(segs: Seq<Seq<char>>, text: Seq<char>, k: int, n: int)
    requires
        0 <= k <= n,
        scan_segments(segs, text, k) is None,
    ensures
        scan_segments(segs, text, n) is None,
    decreases n - k,
{
    if k < n {
        lemma_scan_stays_failed(segs, text, k, n - 1);
    }
}

/// A text without the separator is one piece; each separator adds one.
pub proof fn lemma_split_len(s: Seq<char>, sep: char)
    ensures
        split_on(s, sep).len() >= 1,
        split_on(s, sep).len() == 1 <==> !s.contains(sep),
        !s.contains(sep) ==> split_on(s, sep) == seq![s],
    decreases s.len(),
{
    if s.len() == 0 {
        assert(s =~= Seq::empty());
    } else {
        lemma_split_len(s.drop_last(), sep);
        let before = split_on(s.drop_last(), sep);
        if s.last() == sep {
            assert(s[s.len() - 1] == sep);
        } else {
            if s.contains(sep) {
                let i = choose|i: int| 0 <= i < s.len() && s[i] == sep;
                assert(s.drop_last()[i] == sep);
            }
            if s.drop_last().contains(sep) {
                let i = choose|i: int| 0 <= i < s.drop_last().len() && s.drop_last()[i] == sep;
                assert(s[i] == sep);
            }
            if !s.contains(sep) {
                assert(s.drop_last().push(s.last()) =~= s);
                assert(split_on(s, sep) =~= seq![s]);
            }
        }
    }
}

/// The pieces of `pattern` between its `*`s.
fn split_star(pattern: &Vec<char>) -> (segs: Vec<Vec<char>>)
    ensures
        rows(segs@) == split_on(pattern@, '*'),
        segs.len() >= 1,
{
    let mut segs: Vec<Vec<char>> = Vec::new();
    let mut current: Vec<char> = Vec::new();
    let mut k: usize = 0;
    while k < pattern.len()
        invariant
            k <= pattern.len(),
            rows(segs@).push(current@) == split_on(pattern@.take(k as int), '*'),
        decreases pattern.len() - k,
    {
        let c = pattern[k];
        proof {
            let prefix = pattern@.take(k + 1);
            assert(prefix.drop_last() =~= pattern@.take(k as int));
            assert(prefix.last() == c);
        }
        if c == '*' {
            let ghost before = rows(segs@).push(current@);
            segs.push(current);
            current = Vec::new();
            assert(rows(segs@) =~= before);
            assert(rows(segs@).push(current@) =~= before.push(Seq::empty()));
        } else {
            let ghost before = rows(segs@).push(current@);
            current.push(c);
            assert(rows(segs@).push(current@) =~= before.update(
                before.len() - 1,
                before.last().push(c),
            ));
        }
        k += 1;
    }
    assert(pattern@.take(pattern.len() as int) =~= pattern@);
    let ghost whole = rows(segs@).push(current@);
    segs.push(current);
    assert(rows(segs@) =~= whole);
    segs
}

/// The wildcard match on characters as they stand.
pub fn wildcard_match_chars(pattern: &Vec<char>, text: &Vec<char>) -> (r: bool)
    ensures
        r == wildcard_matches(pattern@, text@),
{
    let segs = split_star(pattern);
    let ghost model = rows(segs@);
    if segs.len() == 1 {
        let same = pattern.len() == text.len() && stands_at(text, pattern, 0);
        proof {
            if same {
                assert(text@.subrange(0, text.len() as int) =~= text@);
            }
            if text@ == pattern@ {
                assert(text@.subrange(0, pattern.len() as int) =~= pattern@);
            }
        }
        return same;
    }
    let mut pos: usize = 0;
    let mut k: usize = 0;
    while k < segs.len()
        invariant
            k <= segs.len(),
            model == rows(segs@),
            model == split_on(pattern@, '*'),
            segs.len() != 1,
            pos <= text.len(),
            scan_segments(model, text@, k as int) == Some(pos as int),
        decreases segs.len() - k,
    {
        assert(model[k as int] == segs@[k as int]@);
        if segs[k].len() > 0 {
            proof {
                lemma_first_occurrence(text@, segs@[k as int]@, pos as int);
            }
            match find_from(text, &segs[k], pos) {
                None => {
                    proof {
                        assert(scan_segments(model, text@, k + 1) is None);
                        lemma_scan_stays_failed(model, text@, k + 1, segs.len() as int);
                    }
                    return false;
                },
                Some(idx) => {
                    if k == 0 && idx != 0 {
                        proof {
                            assert(scan_segments(model, text@, k + 1) is None);
                            lemma_scan_stays_failed(model, text@, k + 1, segs.len() as int);
                        }
                        return false;
                    }
                    pos = idx + segs[k].len();
                },
            }
        }
        k += 1;
    }
    let last = &segs[segs.len() - 1];
    assert(model.last() == last@);
    last.len() == 0 || pos == text.len()
}

/// Wildcard match of `text` against `pattern`, ASCII case ignored.
pub fn glob_match(pattern: &str, text: &str) -> (r: bool)
    ensures
        r == glob_matches(pattern@, text@),
{
    let p = lower_chars_of(pattern);
    let t = lower_chars_of(text);
    wildcard_match_chars(&p, &t)
}

/// Whether `pattern` holds a `*`.
fn has_star(pattern: &Vec<char>) -> (r: bool)
    ensures
        r == pattern@.contains('*'),
{
    let mut k: usize = 0;
    while k < pattern.len()
        invariant
            k <= pattern.len(),
            forall|j: int| 0 <= j < k ==> pattern@[j] != '*',
        decreases pattern.len() - k,
    {
        if pattern[k] == '*' {
            return true;
        }
        k += 1;
    }
    false
}

/// `*` is no letter: folding the case neither adds nor removes one.
pub proof fn lemma_lower_keeps_star(s: Seq<char>)
    ensures
        lower(s).contains('*') == s.contains('*'),
{
    if s.contains('*') {
        let i = choose|i: int| 0 <= i < s.len() && s[i] == '*';
        assert(lower(s)[i] == '*');
    }
    if lower(s).contains('*') {
        let i = choose|i: int| 0 <= i < lower(s).len() && lower(s)[i] == '*';
        assert(s[i] == '*');
    }
}

/// Whether a node name passes the filter.
pub fn name_matches_filter(name: &str, filter: &str) -> (r: bool)
    ensures
        r == name_matches(name@, filter@),
{
    let name_lower = lower_chars_of(name);
    let filter_lower = lower_chars_of(filter);
    proof {
        lemma_lower_keeps_star(filter@);
    }
    if has_star(&filter_lower) {
        wildcard_match_chars(&filter_lower, &name_lower)
    } else {
        contains_chars(&name_lower, &filter_lower)
    }
}

/// A text without `*`, with one `*` put before it, splits into the empty
/// piece and the text.
pub proof fn lemma_split_star_first(p: Seq<char>)
    requires
        !p.contains('*'),
    ensures
        split_on(seq!['*'] + p, '*') == seq![Seq::<char>::empty(), p],
    decreases p.len(),
{
    let whole = seq!['*'] + p;
    if p.len() == 0 {
        assert(whole.drop_last() =~= Seq::<char>::empty());
        assert(whole.last() == '*');
        assert(split_on(whole.drop_last(), '*') =~= seq![Seq::<char>::empty()]);
        assert(p =~= Seq::<char>::empty());
        assert(split_on(whole, '*') =~= seq![Seq::<char>::empty(), p]);
    } else {
        let shorter = p.drop_last();
        assert forall|i: int| 0 <= i < shorter.len() implies shorter[i] != '*' by {
            assert(p[i] == shorter[i]);
            assert(p.contains(p[i]));
        }
        assert(!shorter.contains('*'));
        lemma_split_star_first(shorter);
        assert(whole.drop_last() =~= seq!['*'] + shorter);
        assert(whole.last() == p.last());
        assert(p.contains(p[p.len() - 1]));
        assert(whole.last() != '*');
        assert(shorter.push(p.last()) =~= p);
        assert(split_on(whole, '*') =~= seq![Seq::<char>::empty(), p]);
    }
}

/// A text without `*`, with one `*` put behind it, splits into the text
/// and the empty piece.
pub proof fn lemma_split_star_last(p: Seq<char>)
    requires
        !p.contains('*'),
    ensures
        split_on(p + seq!['*'], '*') == seq![p, Seq::<char>::empty()],
{
    let whole = p + seq!['*'];
    assert(whole.drop_last() =~= p);
    assert(whole.last() == '*');
    lemma_split_len(p, '*');
    assert(split_on(whole, '*') =~= seq![p, Seq::<char>::empty()]);
}

/// A filter without `*` of its own, behind one `*`: a name that passes it
/// ends with the filter, ASCII case ignored.
pub proof fn lemma_star_then_text(name: Seq<char>, p: Seq<char>)
    requires
        !p.contains('*'),
        name_matches(name, seq!['*'] + p),
    ensures
        lower(p).is_suffix_of(lower(name)),
{
    let filter = seq!['*'] + p;
    let text = lower(name);
    let lp = lower(p);
    assert(filter[0] == '*');
    assert(filter.contains('*'));
    assert(lower(filter) =~= seq!['*'] + lp);
    lemma_lower_keeps_star(p);
    lemma_split_star_first(lp);
    let segs = split_on(lower(filter), '*');
    assert(segs == seq![Seq::<char>::empty(), lp]);
    assert(segs.len() == 2);
    assert(scan_segments(segs, text, 0) == Some(0int));
    assert(scan_segments(segs, text, 1) == Some(0int));
    if lp.len() > 0 {
        lemma_first_occurrence(text, lp, 0);
        let idx = first_occurrence(text, lp, 0)->0;
        assert(scan_segments(segs, text, 2) == Some(idx + lp.len()));
        assert(segs.last() == lp);
        assert(idx + lp.len() == text.len());
        assert(lp =~= text.subrange(text.len() - lp.len(), text.len() as int));
    } else {
        assert(lp =~= text.subrange(text.len() - lp.len(), text.len() as int));
    }
}

/// A filter without `*` of its own, before one `*`: a name that passes it
/// starts with the filter, ASCII case ignored.
pub proof fn lemma_text_then_star(name: Seq<char>, p: Seq<char>)
    requires
        !p.contains('*'),
        name_matches(name, p + seq!['*']),
    ensures
        lower(p).is_prefix_of(lower(name)),
{
    let filter = p + seq!['*'];
    let text = lower(name);
    let lp = lower(p);
    assert(filter[p.len() as int] == '*');
    assert(filter.contains('*'));
    assert(lower(filter) =~= lp + seq!['*']);
    lemma_lower_keeps_star(p);
    lemma_split_star_last(lp);
    let segs = split_on(lower(filter), '*');
    assert(segs == seq![lp, Seq::<char>::empty()]);
    assert(segs.len() == 2);
    assert(scan_segments(segs, text, 0) == Some(0int));
    if lp.len() > 0 {
        lemma_first_occurrence(text, lp, 0);
        assert(scan_segments(segs, text, 1) is Some);
        assert(first_occurrence(text, lp, 0) == Some(0int));
        assert(lp =~= text.subrange(0, lp.len() as int));
    } else {
        assert(lp =~= text.subrange(0, lp.len() as int));
    }
}

/// A filter without `*`: a name that passes it holds the filter somewhere,
/// ASCII case ignored.
pub proof fn lemma_plain_filter(name: Seq<char>, s: Seq<char>)
    requires
        !s.contains('*'),
    ensures
        name_matches(name, s) <==> contains_text(lower(name), lower(s)),
{
}

} // verus!
