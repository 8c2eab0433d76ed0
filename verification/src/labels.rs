//! Parsing of the `Debug` presentation of metric labels, such as
//! `{"stage": "init", "location": "UK"}`.
use vstd::prelude::*;

use crate::text::{str_chars, string_from_chars};

verus! {

/// Whitespace as defined by the Unicode `White_Space` property (which is what
/// `char::is_whitespace` checks).
pub open spec fn is_ws(c: char) -> bool {
    ||| '\u{9}' <= c <= '\u{d}'
    ||| c == ' '
    ||| c == '\u{85}'
    ||| c == '\u{a0}'
    ||| c == '\u{1680}'
    ||| '\u{2000}' <= c <= '\u{200a}'
    ||| c == '\u{2028}'
    ||| c == '\u{2029}'
    ||| c == '\u{202f}'
    ||| c == '\u{205f}'
    ||| c == '\u{3000}'
}

/// Index of the first non-whitespace char at or after `i` (or the length if there is none).
pub open spec fn skip_ws(t: Seq<char>, i: int) -> int
    decreases t.len() - i,
{
    if i < t.len() && is_ws(t[i]) {
        skip_ws(t, i + 1)
    } else {
        i
    }
}

/// End of the text before `j` with trailing whitespace removed.
pub open spec fn ws_end(t: Seq<char>, j: int) -> int
    decreases j,
{
    if 0 < j && is_ws(t[j - 1]) {
        ws_end(t, j - 1)
    } else {
        j
    }
}

/// Text with leading and trailing whitespace removed.
pub open spec fn trim(t: Seq<char>) -> Seq<char> {
    let rest = t.skip(skip_ws(t, 0));
    rest.take(ws_end(rest, rest.len() as int))
}

/// Index of the first `"` at or after `i` (or the length if there is none).
pub open spec fn find_quote(t: Seq<char>, i: int) -> int
    decreases t.len() - i,
{
    if i < t.len() && t[i] != '"' {
        find_quote(t, i + 1)
    } else {
        i
    }
}

/// Reads a quoted string starting at `i`: its start and end positions (the quotes
/// excluded), and the position of the next non-whitespace char after the closing quote.
pub open spec fn read_str_at(t: Seq<char>, i: int) -> Option<(int, int, int)> {
    if 0 <= i < t.len() && t[i] == '"' {
        let end = find_quote(t, i + 1);
        if end < t.len() {
            Some((i + 1, end, skip_ws(t, end + 1)))
        } else {
            None
        }
    } else {
        None
    }
}

/// `skip_ws` moves forward and stays within the text.
pub proof fn lemma_skip_ws_bounds(t: Seq<char>, i: int)
    requires
        0 <= i <= t.len(),
    ensures
        i <= skip_ws(t, i) <= t.len(),
        skip_ws(t, i) < t.len() ==> !is_ws(t[skip_ws(t, i)]),
    decreases t.len() - i,
{
    if i < t.len() && is_ws(t[i]) {
        lemma_skip_ws_bounds(t, i + 1);
    }
}

/// `find_quote` moves forward and stays within the text.
pub proof fn lemma_find_quote_bounds(t: Seq<char>, i: int)
    requires
        0 <= i <= t.len(),
    ensures
        i <= find_quote(t, i) <= t.len(),
    decreases t.len() - i,
{
    if i < t.len() && t[i] != '"' {
        lemma_find_quote_bounds(t, i + 1);
    }
}

/// `ws_end` moves backward and stays within the text.
pub proof fn lemma_ws_end_bounds(t: Seq<char>, j: int)
    requires
        0 <= j <= t.len(),
    ensures
        0 <= ws_end(t, j) <= j,
    decreases j,
{
    if 0 < j && is_ws(t[j - 1]) {
        lemma_ws_end_bounds(t, j - 1);
    }
}

/// A successful read of a quoted string ends after the start.
pub proof fn lemma_read_str_bounds(t: Seq<char>, i: int)
    requires
        0 <= i <= t.len(),
    ensures
        match read_str_at(t, i) {
            Some((start, end, next)) => i < start <= end < next <= t.len() && start == i + 1,
            None => true,
        },
{
    if 0 <= i < t.len() && t[i] == '"' {
        lemma_find_quote_bounds(t, i + 1);
        let end = find_quote(t, i + 1);
        if end < t.len() {
            lemma_skip_ws_bounds(t, end + 1);
        }
    }
}

/// Label pairs listed from position `i` of the text inside the braces: `"key": "value"`
/// entries separated by commas, with an optional trailing comma.
pub open spec fn parse_pairs_at(t: Seq<char>, i: int) -> Option<Seq<(Seq<char>, Seq<char>)>>
    decreases t.len() - i,
{
    if i < 0 || i >= t.len() {
        Some(Seq::empty())
    } else {
        match read_str_at(t, i) {
            None => None,
            Some((key_start, key_end, after_key)) => {
                if after_key >= t.len() || t[after_key] != ':' {
                    None
                } else {
                    let value_pos = skip_ws(t, after_key + 1);
                    match read_str_at(t, value_pos) {
                        None => None,
                        Some((value_start, value_end, after_value)) => {
                            let pair = (
                                t.subrange(key_start, key_end),
                                t.subrange(value_start, value_end),
                            );
                            if after_value >= t.len() {
                                Some(seq![pair])
                            } else if t[after_value] != ',' {
                                None
                            } else {
                                proof {
                                    lemma_read_str_bounds(t, i);
                                    lemma_skip_ws_bounds(t, after_key + 1);
                                    lemma_read_str_bounds(t, value_pos);
                                    lemma_skip_ws_bounds(t, after_value + 1);
                                }
                                match parse_pairs_at(t, skip_ws(t, after_value + 1)) {
                                    None => None,
                                    Some(rest) => Some(seq![pair] + rest),
                                }
                            }
                        },
                    }
                }
            },
        }
    }
}

/// Label pairs in the `Debug` presentation of labels, in the order of their appearance.
/// Text with a backslash (an escape sequence) gives no labels.
pub open spec fn parse_labels_spec(s: Seq<char>) -> Option<Seq<(Seq<char>, Seq<char>)>> {
    if s.contains('\\') {
        Some(Seq::empty())
    } else {
        let t = trim(s);
        if t.len() > 0 && t[0] == '{' && t.last() == '}' {
            parse_pairs_at(trim(t.subrange(1, t.len() - 1)), 0)
        } else {
            None
        }
    }
}

/// Map of labels: for a key listed more than once, the last value wins.
pub open spec fn label_map(pairs: Seq<(Seq<char>, Seq<char>)>) -> Map<Seq<char>, Seq<char>>
    decreases pairs.len(),
{
    if pairs.len() == 0 {
        Map::empty()
    } else {
        label_map(pairs.drop_last()).insert(pairs.last().0, pairs.last().1)
    }
}

/// View of parsed label pairs.
pub open spec fn pairs_view(pairs: Seq<(String, String)>) -> Seq<(Seq<char>, Seq<char>)> {
    pairs.map_values(|p: (String, String)| (p.0@, p.1@))
}

/// No two label pairs share a key.
pub open spec fn keys_unique(s: Seq<(Seq<char>, Seq<char>)>) -> bool {
    forall|i: int, j: int| 0 <= i < j < s.len() ==> s[i].0 != s[j].0
}

/// Does a pair with the key exist?
pub open spec fn has_key(s: Seq<(Seq<char>, Seq<char>)>, key: Seq<char>) -> bool {
    exists|i: int| 0 <= i < s.len() && s[i].0 == key
}

/// Label pairs after setting a label: an existing key keeps its place and gets the new value;
/// a new key is appended.
pub open spec fn put_label_spec(
    s: Seq<(Seq<char>, Seq<char>)>,
    key: Seq<char>,
    value: Seq<char>,
) -> Seq<(Seq<char>, Seq<char>)> {
    if has_key(s, key) {
        s.update(choose|i: int| 0 <= i < s.len() && s[i].0 == key, (key, value))
    } else {
        s.push((key, value))
    }
}

/// Labels with each key once: the pairs set one by one in their order, so that each key keeps
/// the place of its first appearance and gets the value of its last one.
pub open spec fn dedup_labels(pairs: Seq<(Seq<char>, Seq<char>)>) -> Seq<(Seq<char>, Seq<char>)>
    decreases pairs.len(),
{
    if pairs.len() == 0 {
        Seq::empty()
    } else {
        put_label_spec(dedup_labels(pairs.drop_last()), pairs.last().0, pairs.last().1)
    }
}

/// Labels parsed from the `Debug` presentation of labels, each key once.
pub open spec fn labels_of(s: Seq<char>) -> Option<Seq<(Seq<char>, Seq<char>)>> {
    match parse_labels_spec(s) {
        Some(pairs) => Some(dedup_labels(pairs)),
        None => None,
    }
}

/// Setting a label keeps the keys unique, and changes the labels as a map does.
proof fn lemma_put_label(s: Seq<(Seq<char>, Seq<char>)>, key: Seq<char>, value: Seq<char>)
    requires
        keys_unique(s),
    ensures
        keys_unique(put_label_spec(s, key, value)),
        forall|i: int|
            0 <= i < put_label_spec(s, key, value).len() ==> (#[trigger] put_label_spec(
                s,
                key,
                value,
            )[i]).0 == key || put_label_spec(s, key, value)[i] == s[i],
        forall|i: int|
            0 <= i < put_label_spec(s, key, value).len() && (#[trigger] put_label_spec(
                s,
                key,
                value,
            )[i]).0 == key ==> put_label_spec(s, key, value)[i].1 == value,
        forall|i: int| 0 <= i < s.len() ==> (#[trigger] put_label_spec(s, key, value)[i]).0 == s[i].0,
        has_key(put_label_spec(s, key, value), key),
{
    let t = put_label_spec(s, key, value);
    if has_key(s, key) {
        let p = choose|i: int| 0 <= i < s.len() && s[i].0 == key;
        assert(t[p].0 == key);
    } else {
        assert(t[s.len() as int].0 == key);
    }
}

/// Labels with each key once have unique keys, and as a map they are the map of the labels:
/// the keys are those of the labels, each with the value of its last appearance.
pub proof fn law_dedup_labels(pairs: Seq<(Seq<char>, Seq<char>)>)
    ensures
        keys_unique(dedup_labels(pairs)),
        forall|i: int|
            0 <= i < dedup_labels(pairs).len() ==> label_map(pairs).contains_key(
                (#[trigger] dedup_labels(pairs)[i]).0,
            ) && label_map(pairs)[dedup_labels(pairs)[i].0] == dedup_labels(pairs)[i].1,
        forall|key: Seq<char>| #[trigger]
            label_map(pairs).contains_key(key) ==> has_key(dedup_labels(pairs), key),
    decreases pairs.len(),
{
    if pairs.len() > 0 {
        let init = pairs.drop_last();
        law_dedup_labels(init);
        let d = dedup_labels(init);
        let (key, value) = pairs.last();
        lemma_put_label(d, key, value);
        let t = dedup_labels(pairs);
        assert(t == put_label_spec(d, key, value));
        assert(label_map(pairs) == label_map(init).insert(key, value));
        assert forall|i: int| 0 <= i < t.len() implies label_map(pairs).contains_key(
            (#[trigger] t[i]).0,
        ) && label_map(pairs)[t[i].0] == t[i].1 by {
            if t[i].0 != key {
                assert(t[i] == d[i]);
            }
        }
        assert forall|k: Seq<char>| #[trigger] label_map(pairs).contains_key(k) implies has_key(
            t,
            k,
        ) by {
            if k != key {
                assert(label_map(init).contains_key(k));
                let j = choose|j: int| 0 <= j < d.len() && d[j].0 == k;
                assert(t[j].0 == k);
            }
        }
    }
}

/// Is the char whitespace?
pub fn is_whitespace(c: char) -> (r: bool)
    ensures
        r == is_ws(c),
{
    ('\u{9}' <= c && c <= '\u{d}') || c == ' ' || c == '\u{85}' || c == '\u{a0}' || c == '\u{1680}'
        || ('\u{2000}' <= c && c <= '\u{200a}') || c == '\u{2028}' || c == '\u{2029}' || c
        == '\u{202f}' || c == '\u{205f}' || c == '\u{3000}'
}

fn skip_ws_from(t: &Vec<char>, i: usize) -> (r: usize)
    requires
        i <= t.len(),
    ensures
        r == skip_ws(t@, i as int),
{
    let mut j = i;
    while j < t.len() && is_whitespace(t[j])
        invariant
            i <= j <= t.len(),
            skip_ws(t@, i as int) == skip_ws(t@, j as int),
        decreases t.len() - j,
    {
        j += 1;
    }
    j
}

fn ws_end_before(t: &Vec<char>, j: usize) -> (r: usize)
    requires
        j <= t.len(),
    ensures
        r == ws_end(t@, j as int),
{
    let mut k = j;
    while k > 0 && is_whitespace(t[k - 1])
        invariant
            k <= j <= t.len(),
            ws_end(t@, j as int) == ws_end(t@, k as int),
        decreases k,
    {
        k -= 1;
    }
    k
}

fn find_quote_from(t: &Vec<char>, i: usize) -> (r: usize)
    requires
        i <= t.len(),
    ensures
        r == find_quote(t@, i as int),
{
    let mut j = i;
    while j < t.len() && t[j] != '"'
        invariant
            i <= j <= t.len(),
            find_quote(t@, i as int) == find_quote(t@, j as int),
        decreases t.len() - j,
    {
        j += 1;
    }
    j
}

fn subvec(t: &Vec<char>, from: usize, to: usize) -> (r: Vec<char>)
    requires
        from <= to <= t.len(),
    ensures
        r@ == t@.subrange(from as int, to as int),
{
    let mut r: Vec<char> = Vec::new();
    let mut k = from;
    while k < to
        invariant
            from <= k <= to <= t.len(),
            r@ == t@.subrange(from as int, k as int),
        decreases to - k,
    {
        r.push(t[k]);
        k += 1;
    }
    r
}

/// Removes leading and trailing whitespace.
pub fn trim_chars(t: &Vec<char>) -> (r: Vec<char>)
    ensures
        r@ == trim(t@),
{
    let start = skip_ws_from(t, 0);
    proof {
        lemma_skip_ws_bounds(t@, 0);
    }
    let rest = subvec(t, start, t.len());
    assert(rest@ == t@.skip(start as int));
    let end = ws_end_before(&rest, rest.len());
    proof {
        lemma_ws_end_bounds(rest@, rest@.len() as int);
    }
    let r = subvec(&rest, 0, end);
    assert(r@ =~= rest@.take(end as int));
    r
}

/// Reads a quoted string starting at `i`: returns its start and end positions (the quotes
/// excluded), and the position of the next non-whitespace char after the closing quote.
pub fn read_str(t: &Vec<char>, i: usize) -> (r: Option<(usize, usize, usize)>)
    requires
        i <= t.len(),
    ensures
        match read_str_at(t@, i as int) {
            Some((start, end, next)) => r == Some((start as usize, end as usize, next as usize)),
            None => r is None,
        },
{
    proof {
        lemma_read_str_bounds(t@, i as int);
    }
    if i < t.len() && t[i] == '"' {
        let end = find_quote_from(t, i + 1);
        if end < t.len() {
            let next = skip_ws_from(t, end + 1);
            Some((i + 1, end, next))
        } else {
            None
        }
    } else {
        None
    }
}

/// Optional pairs with the pairs of `prefix` put in front.
pub open spec fn prefixed(
    prefix: Seq<(Seq<char>, Seq<char>)>,
    rest: Option<Seq<(Seq<char>, Seq<char>)>>,
) -> Option<Seq<(Seq<char>, Seq<char>)>> {
    match rest {
        Some(r) => Some(prefix + r),
        None => None,
    }
}

fn parse_pairs(t: &Vec<char>) -> (r: Option<Vec<(String, String)>>)
    ensures
        match parse_pairs_at(t@, 0) {
            Some(pairs) => r is Some && pairs_view(r->0@) == pairs,
            None => r is None,
        },
{
    let mut pairs: Vec<(String, String)> = Vec::new();
    let mut i: usize = 0;
    assert(pairs_view(pairs@) =~= Seq::<(Seq<char>, Seq<char>)>::empty());
    while i < t.len()
        invariant
            i <= t.len(),
            parse_pairs_at(t@, 0) == prefixed(pairs_view(pairs@), parse_pairs_at(t@, i as int)),
        decreases t.len() - i,
    {
        let ghost tv = t@;
        let key = read_str(t, i);
        if key.is_none() {
            return None;
        }
        let (key_start, key_end, after_key) = key.unwrap();
        proof {
            lemma_read_str_bounds(tv, i as int);
        }
        if after_key >= t.len() || t[after_key] != ':' {
            return None;
        }
        let value_pos = skip_ws_from(t, after_key + 1);
        proof {
            lemma_skip_ws_bounds(tv, after_key + 1);
        }
        let value = read_str(t, value_pos);
        if value.is_none() {
            return None;
        }
        let (value_start, value_end, after_value) = value.unwrap();
        proof {
            lemma_read_str_bounds(tv, value_pos as int);
        }
        let ghost before = pairs_view(pairs@);
        let key_str = string_from_chars(t, key_start, key_end);
        let value_str = string_from_chars(t, value_start, value_end);
        let ghost pair = (key_str@, value_str@);
        pairs.push((key_str, value_str));
        assert(pairs_view(pairs@) =~= before.push(pair));
        if after_value >= t.len() {
            assert(parse_pairs_at(tv, i as int) == Some(seq![pair]));
            assert(before + seq![pair] =~= before.push(pair));
            i = t.len();
            assert(parse_pairs_at(tv, i as int) == Some(Seq::<(Seq<char>, Seq<char>)>::empty()));
            assert(pairs_view(pairs@) + Seq::<(Seq<char>, Seq<char>)>::empty() =~= pairs_view(pairs@));
        } else {
            if t[after_value] != ',' {
                return None;
            }
            let next = skip_ws_from(t, after_value + 1);
            proof {
                lemma_skip_ws_bounds(tv, after_value + 1);
                match parse_pairs_at(tv, next as int) {
                    Some(rest) => {
                        assert(before + (seq![pair] + rest) =~= before.push(pair) + rest);
                    },
                    None => {},
                }
            }
            i = next;
        }
    }
    proof {
        assert(pairs_view(pairs@) + Seq::<(Seq<char>, Seq<char>)>::empty() =~= pairs_view(pairs@));
    }
    Some(pairs)
}

/// Sets a label: replaces the value of an existing key in place, or appends a new pair.
fn put_label(pairs: &mut Vec<(String, String)>, key: String, value: String)
    requires
        keys_unique(pairs_view(old(pairs)@)),
    ensures
        pairs_view(final(pairs)@) == put_label_spec(pairs_view(old(pairs)@), key@, value@),
        keys_unique(pairs_view(final(pairs)@)),
{
    let ghost before = pairs_view(pairs@);
    proof {
        lemma_put_label(before, key@, value@);
    }
    let mut i: usize = 0;
    while i < pairs.len()
        invariant
            i <= pairs.len(),
            pairs_view(pairs@) == before,
            before == pairs_view(old(pairs)@),
            keys_unique(before),
            forall|j: int| 0 <= j < i ==> before[j].0 != key@,
        decreases pairs.len() - i,
    {
        if crate::text::str_eq(pairs[i].0.as_str(), key.as_str()) {
            let ghost kv = key@;
            let ghost vv = value@;
            proof {
                assert(before[i as int].0 == kv);
                assert(has_key(before, kv));
                let c = choose|j: int| 0 <= j < before.len() && before[j].0 == kv;
                assert(c == i);
                assert(put_label_spec(before, kv, vv) == before.update(i as int, (kv, vv)));
            }
            pairs.set(i, (key, value));
            assert(pairs_view(pairs@) =~= before.update(i as int, (kv, vv)));
            return;
        }
        i += 1;
    }
    let ghost kv = key@;
    let ghost vv = value@;
    pairs.push((key, value));
    assert(pairs_view(pairs@) =~= before.push((kv, vv)));
}

/// Keeps each key of the label pairs once, with the value of its last appearance, at the
/// place of its first appearance.
fn dedup(raw: Vec<(String, String)>) -> (r: Vec<(String, String)>)
    ensures
        pairs_view(r@) == dedup_labels(pairs_view(raw@)),
{
    let ghost raw_view = pairs_view(raw@);
    let mut r: Vec<(String, String)> = Vec::new();
    proof {
        assert(raw_view.take(0) =~= Seq::<(Seq<char>, Seq<char>)>::empty());
        assert(pairs_view(r@) =~= Seq::<(Seq<char>, Seq<char>)>::empty());
    }
    for pair in it: raw.into_iter()
        invariant
            it.seq() == raw@,
            raw_view == pairs_view(raw@),
            pairs_view(r@) == dedup_labels(raw_view.take(it.index() as int)),
            keys_unique(pairs_view(r@)),
    {
        let ghost i = it.index();
        proof {
            assert(raw_view.take(i + 1).drop_last() =~= raw_view.take(i as int));
            assert(raw_view.take(i + 1).last() == (pair.0@, pair.1@));
        }
        let (key, value) = pair;
        put_label(&mut r, key, value);
        proof {
            law_dedup_labels(raw_view.take(i + 1));
        }
    }
    proof {
        assert(raw_view.take(raw_view.len() as int) =~= raw_view);
    }
    r
}

/// Parses the `Debug` presentation of labels, such as `{"stage": "init", "location": "UK"}`,
/// into labels: each key once, at the place of its first appearance, with the value of its
/// last appearance (as a map keeps them). Presentations with escape sequences (a backslash)
/// are not supported and give no labels.
pub fn parse_labels_inner(labels: &str) -> (r: Option<Vec<(String, String)>>)
    ensures
        match labels_of(labels@) {
            Some(pairs) => r is Some && pairs_view(r->0@) == pairs,
            None => r is None,
        },
{
    let chars = str_chars(labels);
    let mut k: usize = 0;
    while k < chars.len()
        invariant
            k <= chars.len(),
            chars@ == labels@,
            forall|m: int| 0 <= m < k ==> chars@[m] != '\\',
        decreases chars.len() - k,
    {
        if chars[k] == '\\' {
            assert(labels@.contains('\\')) by {
                assert(labels@[k as int] == '\\');
            }
            let empty: Vec<(String, String)> = Vec::new();
            assert(pairs_view(empty@) =~= Seq::<(Seq<char>, Seq<char>)>::empty());
            assert(dedup_labels(Seq::<(Seq<char>, Seq<char>)>::empty()) =~= Seq::<(Seq<char>, Seq<char>)>::empty());
            return Some(empty);
        }
        k += 1;
    }
    assert(!labels@.contains('\\'));
    let trimmed = trim_chars(&chars);
    let n = trimmed.len();
    if n == 0 || trimmed[0] != '{' || trimmed[n - 1] != '}' {
        return None;
    }
    let inner = subvec(&trimmed, 1, n - 1);
    let inner = trim_chars(&inner);
    match parse_pairs(&inner) {
        Some(raw) => Some(dedup(raw)),
        None => None,
    }
}

/// `find_quote` stops at the first `"`.
proof fn lemma_find_quote_at(t: Seq<char>, i: int, p: int)
    requires
        0 <= i <= p < t.len(),
        t[p] == '"',
        forall|j: int| i <= j < p ==> t[j] != '"',
    ensures
        find_quote(t, i) == p,
    decreases p - i,
{
    if i < p {
        lemma_find_quote_at(t, i + 1, p);
    }
}

/// Trimming text that starts and ends with non-whitespace changes nothing.
proof fn lemma_trim_unchanged(t: Seq<char>)
    requires
        t.len() > 0,
        !is_ws(t[0]),
        !is_ws(t.last()),
    ensures
        trim(t) == t,
{
    assert(skip_ws(t, 0) == 0);
    let rest = t.skip(0);
    assert(rest =~= t);
    assert(ws_end(rest, rest.len() as int) == rest.len());
    assert(rest.take(rest.len() as int) =~= t);
}

/// A quoted string runs up to the next `"` and may hold any other char: for a key and a
/// value without `"` and without backslashes, the presentation `{"key": "value"}` gives
/// exactly the label `(key, value)`, whatever other chars (spaces, colons, commas, braces)
/// the key and the value hold.
pub proof fn law_single_label(key: Seq<char>, value: Seq<char>)
    requires
        !key.contains('"'),
        !key.contains('\\'),
        !value.contains('"'),
        !value.contains('\\'),
    ensures
        labels_of(seq!['{', '"'] + key + seq!['"', ':', ' ', '"'] + value + seq!['"', '}'])
            == Some(seq![(key, value)]),
{
    let kl = key.len() as int;
    let vl = value.len() as int;
    let u = seq!['"'] + key + seq!['"', ':', ' ', '"'] + value + seq!['"'];
    let s = seq!['{', '"'] + key + seq!['"', ':', ' ', '"'] + value + seq!['"', '}'];
    assert(u.len() == kl + vl + 6);
    assert(s.len() == kl + vl + 8);
    assert forall|j: int| 0 <= j < kl implies #[trigger] u[1 + j] == key[j] && s[2 + j] == key[j] by {}
    assert forall|j: int| 0 <= j < vl implies #[trigger] u[5 + kl + j] == value[j] && s[6 + kl + j]
        == value[j] by {}
    assert(u[0] == '"' && u[1 + kl] == '"' && u[2 + kl] == ':' && u[3 + kl] == ' ');
    assert(u[4 + kl] == '"' && u[5 + kl + vl] == '"');
    assert(s[0] == '{' && s[1] == '"' && s[2 + kl] == '"' && s[3 + kl] == ':' && s[4 + kl] == ' ');
    assert(s[5 + kl] == '"' && s[6 + kl + vl] == '"' && s[7 + kl + vl] == '}');
    // No backslash anywhere.
    assert forall|j: int| 0 <= j < s.len() implies s[j] != '\\' by {
        if 2 <= j < 2 + kl {
            assert(s[2 + (j - 2)] == key[j - 2]);
        } else if 6 + kl <= j < 6 + kl + vl {
            assert(s[6 + kl + (j - 6 - kl)] == value[j - 6 - kl]);
        }
    }
    assert(!s.contains('\\'));
    // The braces are the outermost chars, and the text inside them is `u`.
    lemma_trim_unchanged(s);
    assert(s.subrange(1, s.len() - 1) =~= u);
    lemma_trim_unchanged(u);
    // The key.
    assert forall|j: int| 1 <= j < 1 + kl implies u[j] != '"' by {
        assert(u[1 + (j - 1)] == key[j - 1]);
    }
    lemma_find_quote_at(u, 1, 1 + kl);
    assert(skip_ws(u, 2 + kl) == 2 + kl);
    assert(read_str_at(u, 0) == Some((1int, 1 + kl, 2 + kl)));
    // The value, after the colon and the space.
    assert(skip_ws(u, 4 + kl) == 4 + kl);
    assert(skip_ws(u, 3 + kl) == 4 + kl);
    assert forall|j: int| 5 + kl <= j < 5 + kl + vl implies u[j] != '"' by {
        assert(u[5 + kl + (j - 5 - kl)] == value[j - 5 - kl]);
    }
    lemma_find_quote_at(u, 5 + kl, 5 + kl + vl);
    assert(skip_ws(u, 6 + kl + vl) == 6 + kl + vl);
    assert(read_str_at(u, 4 + kl) == Some((5 + kl, 5 + kl + vl, 6 + kl + vl)));
    assert(u.subrange(1, 1 + kl) =~= key);
    assert(u.subrange(5 + kl, 5 + kl + vl) =~= value);
    assert(parse_pairs_at(u, 0) == Some(seq![(key, value)]));
    assert(parse_labels_spec(s) == Some(seq![(key, value)]));
    let single = seq![(key, value)];
    let none = Seq::<(Seq<char>, Seq<char>)>::empty();
    assert(single.drop_last() =~= none);
    assert(dedup_labels(none) == none);
    assert(!has_key(none, key));
    assert(put_label_spec(none, key, value) == none.push((key, value)));
    assert(none.push((key, value)) =~= single);
    assert(dedup_labels(single) == put_label_spec(dedup_labels(single.drop_last()), key, value));
}

/// The presentation of one label: `"key": "value"`.
pub open spec fn label_text(key: Seq<char>, value: Seq<char>) -> Seq<char> {
    seq!['"'] + key + seq!['"', ':', ' ', '"'] + value + seq!['"']
}

/// Reading a label presented at position `i`: the pair is read, and the position after it
/// (and after any whitespace) is returned.
proof fn lemma_label_at(u: Seq<char>, i: int, key: Seq<char>, value: Seq<char>)
    requires
        !key.contains('"'),
        !value.contains('"'),
        0 <= i,
        i + key.len() + value.len() + 6 <= u.len(),
        u.subrange(i, i + key.len() + value.len() + 6) == label_text(key, value),
    ensures
        ({
            let kl = key.len() as int;
            let vl = value.len() as int;
            &&& read_str_at(u, i) == Some((i + 1, i + 1 + kl, i + 2 + kl))
            &&& u[i + 2 + kl] == ':'
            &&& skip_ws(u, i + 3 + kl) == i + 4 + kl
            &&& read_str_at(u, i + 4 + kl) == Some(
                (i + 5 + kl, i + 5 + kl + vl, skip_ws(u, i + 6 + kl + vl)),
            )
            &&& u.subrange(i + 1, i + 1 + kl) == key
            &&& u.subrange(i + 5 + kl, i + 5 + kl + vl) == value
        }),
{
    let kl = key.len() as int;
    let vl = value.len() as int;
    let t = label_text(key, value);
    assert forall|j: int| 0 <= j < t.len() implies u[i + j] == #[trigger] t[j] by {
        assert(u.subrange(i, i + kl + vl + 6)[j] == u[i + j]);
    }
    assert forall|j: int| 0 <= j < kl implies #[trigger] t[1 + j] == key[j] by {}
    assert forall|j: int| 0 <= j < vl implies #[trigger] t[5 + kl + j] == value[j] by {}
    assert(t[0] == '"' && t[1 + kl] == '"' && t[2 + kl] == ':' && t[3 + kl] == ' ');
    assert(t[4 + kl] == '"' && t[5 + kl + vl] == '"');
    assert(u[i] == t[0]);
    assert(u[i + 1 + kl] == t[1 + kl]);
    assert(u[i + 2 + kl] == t[2 + kl]);
    assert(u[i + 3 + kl] == t[3 + kl]);
    assert(u[i + 4 + kl] == t[4 + kl]);
    assert(u[i + 5 + kl + vl] == t[5 + kl + vl]);
    assert forall|j: int| i + 1 <= j < i + 1 + kl implies u[j] != '"' by {
        assert(u[i + (j - i)] == t[j - i]);
        assert(t[1 + (j - i - 1)] == key[j - i - 1]);
    }
    lemma_find_quote_at(u, i + 1, i + 1 + kl);
    assert(skip_ws(u, i + 4 + kl) == i + 4 + kl);
    assert(skip_ws(u, i + 3 + kl) == i + 4 + kl);
    assert forall|j: int| i + 5 + kl <= j < i + 5 + kl + vl implies u[j] != '"' by {
        assert(u[i + (j - i)] == t[j - i]);
        assert(t[5 + kl + (j - i - 5 - kl)] == value[j - i - 5 - kl]);
    }
    lemma_find_quote_at(u, i + 5 + kl, i + 5 + kl + vl);
    assert forall|j: int| 0 <= j < kl implies #[trigger] u.subrange(i + 1, i + 1 + kl)[j] == key[j] by {
        assert(u[i + (1 + j)] == t[1 + j]);
    }
    assert(u.subrange(i + 1, i + 1 + kl) =~= key);
    assert forall|j: int| 0 <= j < vl implies #[trigger] u.subrange(i + 5 + kl, i + 5 + kl + vl)[j]
        == value[j] by {
        assert(u[i + (5 + kl + j)] == t[5 + kl + j]);
    }
    assert(u.subrange(i + 5 + kl, i + 5 + kl + vl) =~= value);
}

/// The presentation of a label holds no backslash if its key and value hold none.
proof fn lemma_label_text_clean(key: Seq<char>, value: Seq<char>)
    requires
        !key.contains('\\'),
        !value.contains('\\'),
    ensures
        forall|j: int| 0 <= j < label_text(key, value).len() ==> #[trigger] label_text(key, value)[j]
            != '\\',
{
    let t = label_text(key, value);
    let kl = key.len() as int;
    assert forall|j: int| 0 <= j < t.len() implies #[trigger] t[j] != '\\' by {
        if 1 <= j < 1 + kl {
            assert(t[1 + (j - 1)] == key[j - 1]);
        } else if 5 + kl <= j < 5 + kl + value.len() {
            assert(t[5 + kl + (j - 5 - kl)] == value[j - 5 - kl]);
        }
    }
}

/// Two labels separated by a comma and a space are read in their order.
proof fn lemma_two_pairs(k1: Seq<char>, v1: Seq<char>, k2: Seq<char>, v2: Seq<char>)
    requires
        !k1.contains('"'),
        !v1.contains('"'),
        !k2.contains('"'),
        !v2.contains('"'),
    ensures
        parse_pairs_at(label_text(k1, v1) + seq![',', ' '] + label_text(k2, v2), 0) == Some(
            seq![(k1, v1), (k2, v2)],
        ),
{
    let a = label_text(k1, v1);
    let b = label_text(k2, v2);
    let u = a + seq![',', ' '] + b;
    let al = a.len() as int;
    let bl = b.len() as int;
    assert(u.subrange(0, al) =~= a);
    lemma_label_at(u, 0, k1, v1);
    assert(u[al] == ',' && u[al + 1] == ' ');
    assert(skip_ws(u, al) == al);
    assert(skip_ws(u, al + 2) == al + 2);
    assert(skip_ws(u, al + 1) == al + 2);
    assert(u.subrange(al + 2, al + 2 + bl) =~= b);
    lemma_label_at(u, al + 2, k2, v2);
    assert(skip_ws(u, u.len() as int) == u.len());
    assert(parse_pairs_at(u, al + 2) == Some(seq![(k2, v2)]));
    assert(parse_pairs_at(u, 0) == Some(seq![(k1, v1)] + seq![(k2, v2)]));
    assert(seq![(k1, v1)] + seq![(k2, v2)] =~= seq![(k1, v1), (k2, v2)]);
}

/// Two labels with each key once: both, or the second one's value under a repeated key.
proof fn lemma_dedup_two(k1: Seq<char>, v1: Seq<char>, k2: Seq<char>, v2: Seq<char>)
    ensures
        dedup_labels(seq![(k1, v1), (k2, v2)]) == (if k1 == k2 {
            seq![(k1, v2)]
        } else {
            seq![(k1, v1), (k2, v2)]
        }),
{
    let pairs = seq![(k1, v1), (k2, v2)];
    let none = Seq::<(Seq<char>, Seq<char>)>::empty();
    let first = seq![(k1, v1)];
    assert(pairs.drop_last() =~= first);
    assert(first.drop_last() =~= none);
    assert(dedup_labels(none) == none);
    assert(!has_key(none, k1));
    assert(dedup_labels(first) == put_label_spec(none, k1, v1));
    assert(none.push((k1, v1)) =~= first);
    assert(dedup_labels(first) == first);
    assert(dedup_labels(pairs) == put_label_spec(first, k2, v2));
    if k1 == k2 {
        assert(first[0].0 == k2);
        assert(has_key(first, k2));
        let c = choose|i: int| 0 <= i < first.len() && first[i].0 == k2;
        assert(c == 0);
        assert(first.update(0, (k2, v2)) =~= seq![(k1, v2)]);
    } else {
        assert(!has_key(first, k2));
        assert(first.push((k2, v2)) =~= pairs);
    }
}

/// Labels are separated by commas, and a key listed twice keeps the value listed last: for
/// keys and values without `"` and without backslashes, `{"k1": "v1", "k2": "v2"}` gives the
/// labels `(k1, v1)` and `(k2, v2)` in this order, or the single label `(k1, v2)` if the keys
/// are equal.
pub proof fn law_two_labels(k1: Seq<char>, v1: Seq<char>, k2: Seq<char>, v2: Seq<char>)
    requires
        !k1.contains('"'),
        !k1.contains('\\'),
        !v1.contains('"'),
        !v1.contains('\\'),
        !k2.contains('"'),
        !k2.contains('\\'),
        !v2.contains('"'),
        !v2.contains('\\'),
    ensures
        labels_of(seq!['{'] + label_text(k1, v1) + seq![',', ' '] + label_text(k2, v2) + seq!['}'])
            == Some(if k1 == k2 {
            seq![(k1, v2)]
        } else {
            seq![(k1, v1), (k2, v2)]
        }),
{
    let a = label_text(k1, v1);
    let b = label_text(k2, v2);
    let u = a + seq![',', ' '] + b;
    let s = seq!['{'] + a + seq![',', ' '] + b + seq!['}'];
    let al = a.len() as int;
    let bl = b.len() as int;
    lemma_label_text_clean(k1, v1);
    lemma_label_text_clean(k2, v2);
    assert forall|j: int| 0 <= j < s.len() implies s[j] != '\\' by {
        if 1 <= j < 1 + al {
            assert(s[j] == a[j - 1]);
        } else if 3 + al <= j < 3 + al + bl {
            assert(s[j] == b[j - 3 - al]);
        }
    }
    assert(!s.contains('\\'));
    assert(s[0] == '{' && s[s.len() - 1] == '}');
    lemma_trim_unchanged(s);
    assert(s.subrange(1, s.len() - 1) =~= u);
    assert(u[0] == a[0] && a[0] == '"');
    assert(u[u.len() - 1] == b[bl - 1] && b[bl - 1] == '"');
    lemma_trim_unchanged(u);
    lemma_two_pairs(k1, v1, k2, v2);
    assert(parse_labels_spec(s) == Some(seq![(k1, v1), (k2, v2)]));
    lemma_dedup_two(k1, v1, k2, v2);
}

/// Braces with only a space inside give no labels.
proof fn lemma_empty_braces()
    ensures
        labels_of(seq!['{', ' ', '}']) == Some(Seq::<(Seq<char>, Seq<char>)>::empty()),
{
    let e = seq!['{', ' ', '}'];
    assert forall|j: int| 0 <= j < e.len() implies e[j] != '\\' by {}
    assert(!e.contains('\\'));
    lemma_trim_unchanged(e);
    let inner = e.subrange(1, 2);
    assert(inner =~= seq![' ']);
    assert(is_ws(inner[0]));
    assert(skip_ws(inner, 1) == 1);
    assert(skip_ws(inner, 0) == 1);
    assert(inner.skip(1) =~= Seq::<char>::empty());
    assert(trim(inner) =~= Seq::<char>::empty());
    assert(dedup_labels(Seq::<(Seq<char>, Seq<char>)>::empty()) =~= Seq::<(Seq<char>, Seq<char>)>::empty());
}

/// A comma after the last label is allowed.
proof fn lemma_trailing_comma(key: Seq<char>, value: Seq<char>)
    requires
        !key.contains('"'),
        !key.contains('\\'),
        !value.contains('"'),
        !value.contains('\\'),
    ensures
        labels_of(seq!['{'] + label_text(key, value) + seq![',', ' ', '}']) == Some(
            seq![(key, value)],
        ),
{
    let a = label_text(key, value);
    let s = seq!['{'] + a + seq![',', ' ', '}'];
    let al = a.len() as int;
    lemma_label_text_clean(key, value);
    assert forall|j: int| 0 <= j < s.len() implies s[j] != '\\' by {
        if 1 <= j < 1 + al {
            assert(s[j] == a[j - 1]);
        }
    }
    assert(!s.contains('\\'));
    assert(s[0] == '{' && s[s.len() - 1] == '}');
    lemma_trim_unchanged(s);
    let mid = s.subrange(1, s.len() - 1);
    assert(mid =~= a + seq![',', ' ']);
    assert(mid[0] == a[0]);
    assert(skip_ws(mid, 0) == 0);
    assert(mid.skip(0) =~= mid);
    assert(mid[al + 1] == ' ' && mid[al] == ',');
    assert(ws_end(mid, al + 1) == al + 1);
    assert(ws_end(mid, al + 2) == al + 1);
    let u = mid.take(al + 1);
    assert(trim(mid) == u);
    assert(u =~= a + seq![',']);
    lemma_single_pair_with_comma(u, key, value);
    let single = seq![(key, value)];
    let none = Seq::<(Seq<char>, Seq<char>)>::empty();
    assert(single.drop_last() =~= none);
    assert(dedup_labels(none) == none);
    assert(!has_key(none, key));
    assert(none.push((key, value)) =~= single);
    assert(dedup_labels(single) == put_label_spec(dedup_labels(single.drop_last()), key, value));
}

/// One label followed by a comma is read as that label.
proof fn lemma_single_pair_with_comma(u: Seq<char>, key: Seq<char>, value: Seq<char>)
    requires
        !key.contains('"'),
        !value.contains('"'),
        u == label_text(key, value) + seq![','],
    ensures
        parse_pairs_at(u, 0) == Some(seq![(key, value)]),
{
    let a = label_text(key, value);
    let al = a.len() as int;
    assert(u.subrange(0, al) =~= a);
    lemma_label_at(u, 0, key, value);
    assert(u[al] == ',');
    assert(skip_ws(u, al) == al);
    assert(skip_ws(u, al + 1) == al + 1);
    assert(parse_pairs_at(u, al + 1) == Some(Seq::<(Seq<char>, Seq<char>)>::empty()));
    assert(seq![(key, value)] + Seq::<(Seq<char>, Seq<char>)>::empty() =~= seq![(key, value)]);
}

/// Braces with nothing but whitespace inside give no labels, and a comma after the last label
/// is allowed: for a key and a value without `"` and without backslashes, `{"k": "v", }`
/// gives the label `(k, v)`. Text that does not start with `{` (after whitespace) gives no
/// labels unless it holds a backslash.
pub proof fn law_label_list_edges(key: Seq<char>, value: Seq<char>, text: Seq<char>)
    requires
        !key.contains('"'),
        !key.contains('\\'),
        !value.contains('"'),
        !value.contains('\\'),
    ensures
        labels_of(seq!['{', ' ', '}']) == Some(Seq::<(Seq<char>, Seq<char>)>::empty()),
        labels_of(seq!['{'] + label_text(key, value) + seq![',', ' ', '}']) == Some(
            seq![(key, value)],
        ),
        !text.contains('\\') && (trim(text).len() == 0 || trim(text)[0] != '{') ==> labels_of(
            text,
        ) is None,
{
    lemma_empty_braces();
    lemma_trailing_comma(key, value);
}

} // verus!
