//! Header-map text conversions.
use vstd::prelude::*;
use vstd::utf8::{decode_utf8, valid_utf8};
use crate::outside::utf8_to_string;
use crate::strmap::{insert_entry, Entries, StrMap};
use crate::text::split_str;
use crate::text::{chars_to_string, copy_range, copy_suffix, join, lemma_join_push, push_all, push_str, str_chars};

verus! {

/// The number of leading spaces of `s`.
pub open spec fn space_count(s: Seq<char>) -> nat
    decreases s.len(),
{
    if s.len() > 0 && s[0] == ' ' {
        1 + space_count(s.drop_first())
    } else {
        0
    }
}

/// `space_count` never passes the end of the text.
pub proof fn lemma_space_count_le(s: Seq<char>)
    ensures
        space_count(s) <= s.len(),
    decreases s.len(),
{
    if s.len() > 0 && s[0] == ' ' {
        lemma_space_count_le(s.drop_first());
    }
}

/// `s` without its leading spaces (`trim_start_matches(' ')`).
pub open spec fn trim_spaces(s: Seq<char>) -> Seq<char> {
    s.skip(space_count(s) as int)
}

/// `space_count` is the length of the longest prefix of spaces.
pub proof fn lemma_space_count(s: Seq<char>, k: int)
    requires
        0 <= k <= s.len(),
        forall|j: int| 0 <= j < k ==> #[trigger] s[j] == ' ',
        k == s.len() || s[k] != ' ',
    ensures
        space_count(s) == k,
    decreases k,
{
    if k > 0 {
        let t = s.drop_first();
        assert forall|j: int| 0 <= j < k - 1 implies #[trigger] t[j] == ' ' by {
            assert(t[j] == s[j + 1]);
        }
        lemma_space_count(t, k - 1);
    }
}

/// `s` without its leading spaces.
pub fn trim_spaces_chars(s: &[char]) -> (r: Vec<char>)
    ensures
        r@ == trim_spaces(s@),
{
    let mut i: usize = 0;
    while i < s.len() && s[i] == ' '
        invariant
            i <= s.len(),
            forall|j: int| 0 <= j < i ==> #[trigger] s@[j] == ' ',
        decreases s.len() - i,
    {
        i += 1;
    }
    proof {
        lemma_space_count(s@, i as int);
    }
    copy_suffix(s, i)
}

/// One entry as `name: value`, leading spaces of name and value removed.
pub open spec fn pair_text(e: (Seq<char>, Seq<char>)) -> Seq<char> {
    trim_spaces(e.0) + seq![':', ' '] + trim_spaces(e.1)
}

/// The text of a header map: the entries as `name: value`, joined by `br`
/// (no line break after the last one).
pub open spec fn map_text(es: Entries, br: Seq<char>) -> Seq<char> {
    join(es.map_values(|e: (Seq<char>, Seq<char>)| pair_text(e)), br)
}

/// One `name:value` item applied to the entries: split at the first `:`,
/// leading spaces of both sides removed; an item without `:` is skipped.
pub open spec fn header_item_step(es: Entries, item: Seq<char>) -> Entries {
    match crate::text::find_str(item, seq![':']) {
        Some(p) => insert_entry(es, trim_spaces(item.take(p)), trim_spaces(item.skip(p + 1))),
        None => es,
    }
}

/// The entries of a list of `name:value` items.
pub open spec fn items_entries(es: Entries, items: Seq<Seq<char>>) -> Entries
    decreases items.len(),
{
    if items.len() == 0 {
        es
    } else {
        header_item_step(items_entries(es, items.drop_last()), items.last())
    }
}

/// The text of `hash_map`: `name: value` items, leading spaces removed,
/// separated by `br`, with no trailing line break.
pub fn hash_map_to_string(hash_map: &StrMap, br: &str) -> (r: String)
    ensures
        r@ == map_text(hash_map@, br@),
{
    let ghost parts = hash_map@.map_values(|e: (Seq<char>, Seq<char>)| pair_text(e));
    let mut out: Vec<char> = Vec::new();
    let mut i: usize = 0;
    let n = hash_map.len();
    while i < n
        invariant
            i <= n,
            n == hash_map@.len(),
            parts == hash_map@.map_values(|e: (Seq<char>, Seq<char>)| pair_text(e)),
            out@ == join(parts.take(i as int), br@),
        decreases n - i,
    {
        if i > 0 {
            push_str(&mut out, br);
        }
        let k = str_chars(hash_map.key_at(i).as_str());
        let kt = trim_spaces_chars(&k);
        let v = str_chars(hash_map.value_at(i).as_str());
        let vt = trim_spaces_chars(&v);
        push_all(&mut out, &kt);
        out.push(':');
        out.push(' ');
        push_all(&mut out, &vt);
        proof {
            lemma_join_push(parts.take(i as int), br@, parts[i as int]);
            assert(parts.take(i + 1) =~= parts.take(i as int).push(parts[i as int]));
        }
        assert(out@ =~= join(parts.take(i + 1), br@));
        i += 1;
    }
    assert(parts.take(n as int) =~= parts);
    chars_to_string(&out)
}

/// The map of a list of `name:value` items, in list order.
pub fn parse_string_array_to_hashmap(arr: &Vec<String>) -> (r: StrMap)
    ensures
        r@ == items_entries(Seq::empty(), crate::config::str_views(arr@)),
{
    let ghost items = crate::config::str_views(arr@);
    let mut m = StrMap::new();
    let mut i: usize = 0;
    while i < arr.len()
        invariant
            i <= arr@.len(),
            items == crate::config::str_views(arr@),
            m@ == items_entries(Seq::empty(), items.take(i as int)),
        decreases arr.len() - i,
    {
        let s = str_chars(arr[i].as_str());
        let colon = vec![':'];
        assert(colon@ =~= seq![':']);
        proof {
            crate::text::lemma_find_from(s@, colon@, 0);
        }
        match crate::text::find_chars(&s, &colon) {
            Some(p) => {
                let sl = s.len();
                assert(p + 1 <= sl);
                let k = copy_range(&s, 0, p);
                assert(k@ =~= s@.take(p as int));
                let v = copy_suffix(&s, p + 1);
                let kt = trim_spaces_chars(&k);
                let vt = trim_spaces_chars(&v);
                m.insert(chars_to_string(&kt), chars_to_string(&vt));
            },
            None => {},
        }
        assert(items.take(i + 1).drop_last() =~= items.take(i as int));
        assert(items.take(i + 1).last() == s@);
        i += 1;
    }
    assert(items.take(arr@.len() as int) =~= items);
    m
}

/// The bytes as text where they are valid UTF-8, else the empty string.
pub fn vec_u8_to_string(vec: &Vec<u8>) -> (r: String)
    ensures
        r@ == (if valid_utf8(vec@) {
            decode_utf8(vec@)
        } else {
            Seq::empty()
        }),
{
    match utf8_to_string(vec) {
        Some(s) => s,
        None => String::new(),
    }
}

/// A name or value as the header text writes it unchanged: no line feed and
/// no leading space.
pub open spec fn plain_header_text(s: Seq<char>) -> bool {
    (forall|i: int| 0 <= i < s.len() ==> #[trigger] s[i] != '\n') && (s.len() == 0 || s[0] != ' ')
}

/// Text without a leading space is its own `trim_spaces`.
pub proof fn lemma_trim_plain(s: Seq<char>)
    requires
        s.len() == 0 || s[0] != ' ',
    ensures
        trim_spaces(s) == s,
{
    lemma_space_count(s, 0);
    assert(s.skip(0) =~= s);
}

/// Reading back the lines of header text, after the first `i`, adds them
/// in order.
proof fn lemma_items_round_trip(es: Entries, i: int)
    requires
        crate::strmap::keys_distinct(es),
        0 <= i <= es.len(),
        forall|k: int| 0 <= k < es.len() ==> plain_header_text(#[trigger] es[k].0) && plain_header_text(es[k].1)
            && !crate::text::contains_str(es[k].0, seq![':']),
    ensures
        items_entries(Seq::empty(), es.map_values(|e: (Seq<char>, Seq<char>)| pair_text(e)).take(i)) == es.take(i),
    decreases i,
{
    let parts = es.map_values(|e: (Seq<char>, Seq<char>)| pair_text(e));
    if i == 0 {
        assert(parts.take(0) =~= Seq::<Seq<char>>::empty());
        assert(es.take(0) =~= Seq::<(Seq<char>, Seq<char>)>::empty());
    } else {
        lemma_items_round_trip(es, i - 1);
        assert(parts.take(i).drop_last() =~= parts.take(i - 1));
        let e = es[i - 1];
        let item = parts.take(i).last();
        assert(plain_header_text(e.0) && plain_header_text(e.1));
        lemma_trim_plain(e.0);
        lemma_trim_plain(e.1);
        assert(item == e.0 + seq![':', ' '] + e.1);
        let k = e.0.len() as int;
        assert(item.subrange(k, k + 1) =~= seq![':']);
        assert forall|j: int| 0 <= j < k implies !crate::text::occurs_at(item, seq![':'], j) by {
            assert(item.subrange(j, j + 1)[0] == item[j]);
            assert(item[j] == e.0[j]);
            if e.0[j] == ':' {
                assert(e.0.subrange(j, j + 1) =~= seq![':']);
                crate::text::lemma_find_from(e.0, seq![':'], 0);
                assert(crate::text::occurs_at(e.0, seq![':'], j));
            }
        }
        crate::text::lemma_find_str_is(item, seq![':'], k);
        assert(item.take(k) =~= e.0);
        let rest = item.skip(k + 1);
        assert(rest =~= seq![' '] + e.1);
        if e.1.len() > 0 {
            assert(rest[1] == e.1[0]);
        }
        lemma_space_count(rest, 1);
        assert(rest.skip(1) =~= e.1);
        let acc = es.take(i - 1);
        assert(!crate::strmap::has_key(acc, e.0)) by {
            if crate::strmap::has_key(acc, e.0) {
                let q = choose|q: int| 0 <= q < acc.len() && acc[q].0 == e.0;
                assert(es[q].0 == es[i - 1].0);
            }
        }
        assert(header_item_step(acc, item) == insert_entry(acc, e.0, e.1));
        assert(insert_entry(acc, e.0, e.1) =~= es.take(i));
    }
}

/// Header text made by `hash_map_to_string` with a line feed between items,
/// split at its line feeds and read by `parse_string_array_to_hashmap`, gives
/// the map back, where names hold no `:` and names and values hold no line
/// feed and start with no space.
pub proof fn law_header_text_round_trip(es: Entries)
    requires
        crate::strmap::keys_distinct(es),
        forall|k: int| 0 <= k < es.len() ==> plain_header_text(#[trigger] es[k].0) && plain_header_text(es[k].1)
            && !crate::text::contains_str(es[k].0, seq![':']),
    ensures
        items_entries(Seq::empty(), split_str(map_text(es, seq!['\n']), seq!['\n'])) == es,
{
    let parts = es.map_values(|e: (Seq<char>, Seq<char>)| pair_text(e));
    lemma_items_round_trip(es, es.len() as int);
    assert(parts.take(es.len() as int) =~= parts);
    assert(es.take(es.len() as int) =~= es);
    if es.len() == 0 {
        let none = Seq::<char>::empty();
        assert(map_text(es, seq!['\n']) == none);
        assert forall|j: int| 0 <= j implies !crate::text::occurs_at(none, seq!['\n'], j) by {}
        crate::text::lemma_find_str_none(none, seq!['\n']);
        crate::text::lemma_split_step(none, seq!['\n']);
        assert(split_str(none, seq!['\n']) =~= seq![none]);
        assert forall|j: int| 0 <= j implies !crate::text::occurs_at(none, seq![':'], j) by {}
        crate::text::lemma_find_str_none(none, seq![':']);
        let one = seq![none];
        let nothing = Seq::<(Seq<char>, Seq<char>)>::empty();
        assert(one.drop_last() =~= Seq::<Seq<char>>::empty());
        assert(one.last() == none);
        assert(items_entries(nothing, Seq::<Seq<char>>::empty()) == nothing);
        assert(header_item_step(nothing, none) == nothing);
        assert(items_entries(nothing, one) == nothing);
    } else {
        assert forall|i: int, j: int| 0 <= i < parts.len() && 0 <= j < parts[i].len()
            implies #[trigger] parts[i][j] != '\n' by {
            let e = es[i];
            lemma_trim_plain(e.0);
            lemma_trim_plain(e.1);
            assert(parts[i] == e.0 + seq![':', ' '] + e.1);
            if j < e.0.len() {
                assert(parts[i][j] == e.0[j]);
            } else if j >= e.0.len() + 2 {
                assert(parts[i][j] == e.1[j - e.0.len() - 2]);
            }
        }
        crate::text::lemma_split_join(parts, '\n');
    }
}

} // verus!
