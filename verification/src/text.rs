//! Text as a sequence of characters.
//!
//! Strings are turned into character vectors, worked on there, and turned back. Every
//! operation is specified over `Seq<char>`.

use vstd::prelude::*;
use vstd::string::*;

verus! {

/// `String::push`: the character is appended at the end.
pub assume_specification[ String::push ](s: &mut String, c: char)
    ensures
        final(s)@ == old(s)@.push(c),
;

/// A piece of text.
pub type Text = Seq<char>;

/// The views of a list of strings.
pub open spec fn texts(v: Seq<String>) -> Seq<Text> {
    v.map_values(|s: String| s@)
}

/// The views of a list of character vectors.
pub open spec fn char_texts(v: Seq<Vec<char>>) -> Seq<Text> {
    v.map_values(|s: Vec<char>| s@)
}

/// The view of an optional string.
pub open spec fn opt_text(o: Option<String>) -> Option<Text> {
    match o {
        Some(s) => Some(s@),
        None => None,
    }
}

/// The view of an optional string slice.
pub open spec fn opt_str(o: Option<&str>) -> Option<Text> {
    match o {
        Some(s) => Some(s@),
        None => None,
    }
}

/// The characters of `s`, in order.
pub fn chars_of(s: &str) -> (r: Vec<char>)
    ensures
        r@ == s@,
{
    let mut out: Vec<char> = Vec::new();
    for c in it: s.chars()
        invariant
            out@ == s@.take(it.index() as int),
            it.seq() == s@,
    {
        out.push(c);
        assert(s@.take(it.index() as int + 1) =~= s@.take(it.index() as int).push(c));
    }
    assert(s@.take(s@.len() as int) =~= s@);
    out
}

/// The string made of `chars`.
pub fn string_of(chars: &Vec<char>) -> (r: String)
    ensures
        r@ == chars@,
{
    let mut out = String::new();
    for i in 0..chars.len()
        invariant
            out@ == chars@.take(i as int),
    {
        out.push(chars[i]);
        assert(chars@.take(i as int + 1) =~= chars@.take(i as int).push(chars@[i as int]));
    }
    assert(chars@.take(chars@.len() as int) =~= chars@);
    out
}

/// The characters at positions `from..to`.
pub fn sub_chars(v: &Vec<char>, from: usize, to: usize) -> (r: Vec<char>)
    requires
        from <= to <= v@.len(),
    ensures
        r@ == v@.subrange(from as int, to as int),
{
    let mut out: Vec<char> = Vec::new();
    let mut i: usize = from;
    while i < to
        invariant
            from <= i <= to <= v@.len(),
            out@ == v@.subrange(from as int, i as int),
        decreases to - i,
    {
        out.push(v[i]);
        assert(v@.subrange(from as int, i as int + 1) =~= v@.subrange(from as int, i as int).push(
            v@[i as int],
        ));
        i = i + 1;
    }
    out
}

/// The UTF-8 bytes of `s`.
pub fn bytes_of(s: &str) -> (r: Vec<u8>)
    ensures
        r@ == vstd::utf8::encode_utf8(s@),
{
    let b = s.as_bytes();
    let mut out: Vec<u8> = Vec::new();
    for i in 0..b.len()
        invariant
            out@ == b@.take(i as int),
    {
        out.push(b[i]);
        assert(b@.take(i as int + 1) =~= b@.take(i as int).push(b@[i as int]));
    }
    assert(b@.take(b@.len() as int) =~= b@);
    out
}

/// Whether `s` is one of `v`.
pub fn in_list(v: &Vec<String>, s: &str) -> (r: bool)
    ensures
        r == texts(v@).contains(s@),
{
    for i in 0..v.len()
        invariant
            forall|j: int| 0 <= j < i ==> (#[trigger] v@[j])@ != s@,
    {
        if str_eq(v[i].as_str(), s) {
            assert(texts(v@)[i as int] == s@);
            return true;
        }
    }
    assert forall|j: int| 0 <= j < texts(v@).len() implies texts(v@)[j] != s@ by {
        assert(texts(v@)[j] == v@[j]@);
    }
    false
}

/// Whether two string slices hold the same characters.
pub fn str_eq(a: &str, b: &str) -> (r: bool)
    ensures
        r == (a@ == b@),
{
    let x = a.to_owned();
    let y = b.to_owned();
    x == y
}

/// A copy of an optional string.
pub fn clone_opt(o: &Option<String>) -> (r: Option<String>)
    ensures
        opt_text(r) == opt_text(*o),
{
    match o {
        Some(s) => Some(s.clone()),
        None => None,
    }
}

/// A copy of a list of strings.
pub fn clone_list(v: &Vec<String>) -> (r: Vec<String>)
    ensures
        texts(r@) == texts(v@),
{
    let mut out: Vec<String> = Vec::new();
    for i in 0..v.len()
        invariant
            out@.len() == i,
            forall|j: int| 0 <= j < i ==> (#[trigger] out@[j])@ == v@[j]@,
    {
        out.push(v[i].clone());
    }
    assert(texts(out@) =~= texts(v@));
    out
}

// ---- white space ----

/// The Unicode `White_Space` property.
pub open spec fn is_white(c: char) -> bool {
    ||| '\u{9}' <= c <= '\u{d}'
    ||| c == ' '
    ||| c == '\u{85}'
    ||| c == '\u{a0}'
    ||| c == '\u{1680}'
    ||| '\u{2000}' <= c <= '\u{200a}'
    ||| c == '\u{2028}'
    ||| c == '\u{2029}'
    ||| c == '\u{202f}'
    ||| c == '\u{205f}'
    ||| c == '\u{3000}'
}

/// Whether `c` is white space.
pub fn white(c: char) -> (r: bool)
    ensures
        r == is_white(c),
{
    ('\u{9}' <= c && c <= '\u{d}') || c == ' ' || c == '\u{85}' || c == '\u{a0}' || c == '\u{1680}'
        || ('\u{2000}' <= c && c <= '\u{200a}') || c == '\u{2028}' || c == '\u{2029}' || c
        == '\u{202f}' || c == '\u{205f}' || c == '\u{3000}'
}

/// `s` without its leading white space.
pub open spec fn trim_start(s: Text) -> Text
    decreases s.len(),
{
    if s.len() > 0 && is_white(s[0]) {
        trim_start(s.drop_first())
    } else {
        s
    }
}

/// `s` without its trailing white space.
pub open spec fn trim_end(s: Text) -> Text
    decreases s.len(),
{
    if s.len() > 0 && is_white(s.last()) {
        trim_end(s.drop_last())
    } else {
        s
    }
}

/// `s` without the white space around it.
pub open spec fn trim(s: Text) -> Text {
    trim_end(trim_start(s))
}

/// `v` without the white space around it.
pub fn trim_chars(v: &Vec<char>) -> (r: Vec<char>)
    ensures
        r@ == trim(v@),
{
    let n: usize = v.len();
    let mut i: usize = 0;
    assert(v@.subrange(0, n as int) =~= v@);
    while i < n && white(v[i])
        invariant
            n == v@.len(),
            i <= n,
            trim_start(v@) == trim_start(v@.subrange(i as int, n as int)),
        decreases n - i,
    {
        assert(v@.subrange(i as int, n as int).drop_first() =~= v@.subrange(i as int + 1, n as int));
        i = i + 1;
    }
    let mut j: usize = n;
    while j > i && white(v[j - 1])
        invariant
            n == v@.len(),
            i <= j <= n,
            trim(v@) == trim_end(v@.subrange(i as int, j as int)),
        decreases j,
    {
        assert(v@.subrange(i as int, j as int).drop_last() =~= v@.subrange(i as int, j as int - 1));
        j = j - 1;
    }
    sub_chars(v, i, j)
}

/// Trimmed text has no white space at either end.
pub proof fn lemma_trim_ends(s: Text)
    ensures
        trim(s).len() > 0 ==> !is_white(trim(s)[0]) && !is_white(trim(s).last()),
        trim(trim(s)) == trim(s),
{
    lemma_trim_start_first(s);
    lemma_trim_end_last(trim_start(s));
}

proof fn lemma_trim_start_first(s: Text)
    ensures
        trim_start(s).len() > 0 ==> !is_white(trim_start(s)[0]),
    decreases s.len(),
{
    if s.len() > 0 && is_white(s[0]) {
        lemma_trim_start_first(s.drop_first());
    }
}

proof fn lemma_trim_end_last(s: Text)
    ensures
        trim_end(s).len() > 0 ==> !is_white(trim_end(s).last()) && trim_end(s)[0] == s[0],
        trim_end(s).len() <= s.len(),
    decreases s.len(),
{
    if s.len() > 0 && is_white(s.last()) {
        lemma_trim_end_last(s.drop_last());
    }
}

/// Trimmed text holds nothing that the text does not hold.
pub proof fn lemma_trim_part(s: Text, c: char)
    requires
        !s.contains(c),
    ensures
        !trim(s).contains(c),
{
    lemma_trim_start_part(s, c);
    lemma_trim_end_part(trim_start(s), c);
}

proof fn lemma_trim_start_part(s: Text, c: char)
    requires
        !s.contains(c),
    ensures
        !trim_start(s).contains(c),
    decreases s.len(),
{
    if s.len() > 0 && is_white(s[0]) {
        let rest = s.drop_first();
        if rest.contains(c) {
            let i = choose|i: int| 0 <= i < rest.len() && rest[i] == c;
            assert(s[i + 1] == c);
        }
        lemma_trim_start_part(rest, c);
    }
}

proof fn lemma_trim_end_part(s: Text, c: char)
    requires
        !s.contains(c),
    ensures
        !trim_end(s).contains(c),
    decreases s.len(),
{
    if s.len() > 0 && is_white(s.last()) {
        let rest = s.drop_last();
        if rest.contains(c) {
            let i = choose|i: int| 0 <= i < rest.len() && rest[i] == c;
            assert(s[i] == c);
        }
        lemma_trim_end_part(rest, c);
    }
}

// ---- splitting ----

/// The pieces of `s` between the occurrences of `sep`: always at least one.
pub open spec fn split(s: Text, sep: char) -> Seq<Text>
    decreases s.len(),
{
    if s.len() == 0 {
        seq![Seq::<char>::empty()]
    } else {
        let front = split(s.drop_last(), sep);
        if s.last() == sep {
            front.push(Seq::<char>::empty())
        } else {
            front.drop_last().push(front.last().push(s.last()))
        }
    }
}

/// A split has at least one piece.
pub proof fn lemma_split_nonempty(s: Text, sep: char)
    ensures
        split(s, sep).len() > 0,
    decreases s.len(),
{
    if s.len() > 0 {
        lemma_split_nonempty(s.drop_last(), sep);
    }
}

/// No piece of a split holds the separator.
pub proof fn lemma_split_pieces(s: Text, sep: char, i: int)
    requires
        0 <= i < split(s, sep).len(),
    ensures
        !split(s, sep)[i].contains(sep),
    decreases s.len(),
{
    if s.len() > 0 {
        let front = split(s.drop_last(), sep);
        lemma_split_nonempty(s.drop_last(), sep);
        if i < front.len() {
            lemma_split_pieces(s.drop_last(), sep, i);
        }
        if s.last() != sep && i == front.len() - 1 {
            let piece = front.last().push(s.last());
            assert(split(s, sep)[i] == piece);
            if piece.contains(sep) {
                let j = choose|j: int| 0 <= j < piece.len() && piece[j] == sep;
                assert(front.last()[j] == sep);
            }
        }
    }
}

/// A text without the separator is one piece.
pub proof fn lemma_split_whole(t: Text, sep: char)
    requires
        !t.contains(sep),
    ensures
        split(t, sep) == seq![t],
    decreases t.len(),
{
    if t.len() > 0 {
        let front = t.drop_last();
        assert(!front.contains(sep)) by {
            if front.contains(sep) {
                let i = choose|i: int| 0 <= i < front.len() && front[i] == sep;
                assert(t[i] == sep);
            }
        }
        assert(t.last() != sep) by {
            assert(t.contains(t[t.len() - 1]));
        }
        lemma_split_whole(front, sep);
        assert(front.push(t.last()) =~= t);
        assert(split(t, sep) =~= seq![t]);
    } else {
        assert(t =~= Seq::<char>::empty());
        assert(split(t, sep) =~= seq![t]);
    }
}

/// The pieces of two texts with the separator between them are those of the one and then those
/// of the other.
pub proof fn lemma_split_concat(a: Text, b: Text, sep: char)
    ensures
        split(a.push(sep) + b, sep) == split(a, sep) + split(b, sep),
    decreases b.len(),
{
    let t = a.push(sep) + b;
    if b.len() == 0 {
        assert(t =~= a.push(sep));
        assert(t.drop_last() =~= a);
        assert(split(t, sep) =~= split(a, sep) + split(b, sep));
    } else {
        lemma_split_concat(a, b.drop_last(), sep);
        lemma_split_nonempty(b.drop_last(), sep);
        assert(t.drop_last() =~= a.push(sep) + b.drop_last());
        assert(split(t, sep) =~= split(a, sep) + split(b, sep));
    }
}

/// The pieces of `v` between the occurrences of `sep`.
pub fn split_chars(v: &Vec<char>, sep: char) -> (r: Vec<Vec<char>>)
    ensures
        char_texts(r@) == split(v@, sep),
        r@.len() > 0,
{
    let mut out: Vec<Vec<char>> = Vec::new();
    let mut cur: Vec<char> = Vec::new();
    assert(v@.take(0) =~= Seq::<char>::empty());
    assert(char_texts(out@).push(cur@) =~= split(v@.take(0), sep));
    for i in 0..v.len()
        invariant
            char_texts(out@).push(cur@) == split(v@.take(i as int), sep),
    {
        let c = v[i];
        proof {
            assert(v@.take(i as int + 1).drop_last() =~= v@.take(i as int));
            lemma_split_nonempty(v@.take(i as int), sep);
        }
        let ghost before = char_texts(out@);
        if c == sep {
            let ghost done = cur@;
            out.push(cur);
            cur = Vec::new();
            assert(char_texts(out@) =~= before.push(done));
        } else {
            cur.push(c);
            assert(before.push(cur@) =~= split(v@.take(i as int), sep).drop_last().push(cur@));
        }
    }
    assert(v@.take(v@.len() as int) =~= v@);
    let ghost before = char_texts(out@);
    let ghost done = cur@;
    out.push(cur);
    assert(char_texts(out@) =~= before.push(done));
    out
}

/// The maximal runs of characters that are not white space.
pub open spec fn words(s: Text) -> Seq<Text>
    decreases s.len(),
{
    if s.len() == 0 {
        Seq::empty()
    } else {
        let front = words(s.drop_last());
        let c = s.last();
        if is_white(c) {
            front
        } else if s.len() >= 2 && !is_white(s[s.len() - 2]) {
            front.drop_last().push(front.last().push(c))
        } else {
            front.push(seq![c])
        }
    }
}

/// The words of `v`.
pub fn words_of(v: &Vec<char>) -> (r: Vec<Vec<char>>)
    ensures
        char_texts(r@) == words(v@),
{
    let mut out: Vec<Vec<char>> = Vec::new();
    let mut cur: Vec<char> = Vec::new();
    assert(v@.take(0) =~= Seq::<char>::empty());
    assert(char_texts(out@) =~= words(v@.take(0)));
    for i in 0..v.len()
        invariant
            i == 0 || is_white(v@[i - 1]) ==> cur@.len() == 0 && char_texts(out@) == words(
                v@.take(i as int),
            ),
            i > 0 && !is_white(v@[i - 1]) ==> cur@.len() > 0 && char_texts(out@).push(cur@)
                == words(v@.take(i as int)),
    {
        let c = v[i];
        let ghost before = char_texts(out@);
        let ghost done = cur@;
        assert(v@.take(i as int + 1).drop_last() =~= v@.take(i as int));
        assert(before.push(done).drop_last() =~= before);
        if white(c) {
            if cur.len() > 0 {
                out.push(cur);
                cur = Vec::new();
                assert(char_texts(out@) =~= before.push(done));
            }
        } else {
            cur.push(c);
            assert(cur@ =~= done.push(c));
            assert(done.len() == 0 ==> cur@ =~= seq![c]);
        }
    }
    assert(v@.take(v@.len() as int) =~= v@);
    if cur.len() > 0 {
        let ghost before = char_texts(out@);
        let ghost done = cur@;
        out.push(cur);
        assert(char_texts(out@) =~= before.push(done));
    }
    out
}

/// The non-empty pieces of a comma-separated list, each trimmed.
pub open spec fn list_items(raw: Text, sep: char) -> Seq<Text> {
    split(raw, sep).map_values(|p: Text| trim(p)).filter(|p: Text| p.len() > 0)
}

/// The non-empty pieces of `raw` between the occurrences of `sep`, each trimmed.
pub fn items_of(raw: &Vec<char>, sep: char) -> (r: Vec<Vec<char>>)
    ensures
        char_texts(r@) == list_items(raw@, sep),
{
    let pieces = split_chars(raw, sep);
    let ghost all = split(raw@, sep).map_values(|p: Text| trim(p));
    let ghost keep = |p: Text| p.len() > 0;
    let mut out: Vec<Vec<char>> = Vec::new();
    assert(char_texts(out@) =~= all.take(0).filter(keep)) by {
        reveal(Seq::filter);
    }
    for i in 0..pieces.len()
        invariant
            all == split(raw@, sep).map_values(|p: Text| trim(p)),
            char_texts(pieces@) == split(raw@, sep),
            keep == |p: Text| p.len() > 0,
            char_texts(out@) == all.take(i as int).filter(keep),
    {
        let t = trim_chars(&pieces[i]);
        proof {
            assert(char_texts(pieces@)[i as int] == pieces@[i as int]@);
            assert(all[i as int] == t@);
            assert(all.take(i as int + 1).drop_last() =~= all.take(i as int));
            reveal(Seq::filter);
        }
        let ghost before = char_texts(out@);
        if t.len() > 0 {
            let ghost tv = t@;
            out.push(t);
            assert(char_texts(out@) =~= before.push(tv));
        }
    }
    assert(all.take(all.len() as int) =~= all);
    assert(pieces@.len() == all.len()) by {
        assert(char_texts(pieces@).len() == all.len());
    }
    out
}

/// Items with the separator between them.
pub open spec fn list_text(items: Seq<Text>, sep: char) -> Text
    decreases items.len(),
{
    if items.len() == 0 {
        Seq::empty()
    } else if items.len() == 1 {
        items[0]
    } else {
        list_text(items.drop_last(), sep).push(sep) + items.last()
    }
}

/// An item that a list keeps as it is: not empty, trimmed, and without the separator.
pub open spec fn is_item(t: Text, sep: char) -> bool {
    t.len() > 0 && trim(t) == t && !t.contains(sep)
}

/// Of trimmed pieces without the separator, those that are kept are items.
proof fn lemma_kept_items(s: Seq<Text>, keep: spec_fn(Text) -> bool, sep: char)
    requires
        keep == (|p: Text| p.len() > 0),
        forall|i: int| 0 <= i < s.len() ==> trim(#[trigger] s[i]) == s[i] && !s[i].contains(sep),
    ensures
        forall|i: int| 0 <= i < s.filter(keep).len() ==> is_item(#[trigger] s.filter(keep)[i], sep),
    decreases s.len(),
{
    reveal(Seq::filter);
    if s.len() > 0 {
        assert forall|i: int| 0 <= i < s.drop_last().len() implies trim(
            #[trigger] s.drop_last()[i],
        ) == s.drop_last()[i] && !s.drop_last()[i].contains(sep) by {
            assert(s.drop_last()[i] == s[i]);
        }
        lemma_kept_items(s.drop_last(), keep, sep);
        assert(s[s.len() - 1] == s.last());
        let front = s.drop_last().filter(keep);
        assert forall|i: int| 0 <= i < s.filter(keep).len() implies is_item(
            #[trigger] s.filter(keep)[i],
            sep,
        ) by {
            if i < front.len() {
                assert(s.filter(keep)[i] == front[i]);
            } else {
                assert(s.filter(keep)[i] == s.last());
            }
        }
    }
}

/// What is read from a list are items.
pub proof fn lemma_list_items(raw: Text, sep: char)
    ensures
        forall|i: int|
            0 <= i < list_items(raw, sep).len() ==> is_item(#[trigger] list_items(raw, sep)[i], sep),
{
    let pieces = split(raw, sep);
    let s = pieces.map_values(|p: Text| trim(p));
    assert forall|i: int| 0 <= i < s.len() implies trim(#[trigger] s[i]) == s[i] && !s[i].contains(
        sep,
    ) by {
        lemma_split_pieces(raw, sep, i);
        lemma_trim_ends(pieces[i]);
        lemma_trim_part(pieces[i], sep);
    }
    lemma_kept_items(s, |p: Text| p.len() > 0, sep);
}

/// Two lists with the separator between them read as the items of the one and then those of the
/// other.
pub proof fn lemma_list_concat(a: Text, b: Text, sep: char)
    ensures
        list_items(a.push(sep) + b, sep) == list_items(a, sep) + list_items(b, sep),
{
    let f = |p: Text| trim(p);
    let keep = |p: Text| p.len() > 0;
    let (x, y) = (split(a, sep), split(b, sep));
    lemma_split_concat(a, b, sep);
    assert((x + y).map_values(f) =~= x.map_values(f) + y.map_values(f));
    Seq::filter_distributes_over_add(x.map_values(f), y.map_values(f), keep);
}

/// Items with the separator between them read as these items.
pub proof fn lemma_list_text(items: Seq<Text>, sep: char)
    requires
        forall|i: int| 0 <= i < items.len() ==> is_item(#[trigger] items[i], sep),
    ensures
        list_items(list_text(items, sep), sep) == items,
    decreases items.len(),
{
    reveal_with_fuel(Seq::filter, 2);
    let f = |p: Text| trim(p);
    let keep = |p: Text| p.len() > 0;
    if items.len() == 0 {
        let s = seq![Seq::<char>::empty()].map_values(f);
        assert(s =~= seq![Seq::<char>::empty()]);
        assert(s.filter(keep) =~= items);
    } else {
        let last = items.last();
        assert(items[items.len() - 1] == last);
        lemma_split_whole(last, sep);
        let s = seq![last].map_values(f);
        assert(s =~= seq![last]);
        assert(s.drop_last() =~= Seq::<Text>::empty());
        assert(s.filter(keep) =~= seq![last]);
        if items.len() == 1 {
            assert(items =~= seq![last]);
        } else {
            let front = items.drop_last();
            assert forall|i: int| 0 <= i < front.len() implies is_item(#[trigger] front[i], sep) by {
                assert(front[i] == items[i]);
            }
            lemma_list_text(front, sep);
            lemma_list_concat(list_text(front, sep), last, sep);
            assert(items =~= front + seq![last]);
        }
    }
}

/// The strings made of a list of character vectors.
pub fn strings_of(v: &Vec<Vec<char>>) -> (r: Vec<String>)
    ensures
        texts(r@) == char_texts(v@),
{
    let mut out: Vec<String> = Vec::new();
    for i in 0..v.len()
        invariant
            out@.len() == i,
            forall|j: int| 0 <= j < i ==> (#[trigger] out@[j])@ == v@[j]@,
    {
        out.push(string_of(&v[i]));
    }
    assert(texts(out@) =~= char_texts(v@));
    out
}

// ---- searching and replacing ----

/// Whether `s` begins with `p`.
pub open spec fn has_prefix(s: Text, p: Text) -> bool {
    p.len() <= s.len() && s.take(p.len() as int) == p
}

/// Whether `p` stands in `v` at position `i`.
pub fn prefix_at(v: &Vec<char>, i: usize, p: &Vec<char>) -> (r: bool)
    requires
        i <= v@.len(),
    ensures
        r == has_prefix(v@.skip(i as int), p@),
{
    if p.len() > v.len() - i {
        return false;
    }
    for j in 0..p.len()
        invariant
            i + p@.len() <= v.len(),
            forall|k: int| 0 <= k < j ==> v@[i + k] == p@[k],
    {
        if v[i + j] != p[j] {
            assert(v@.skip(i as int).take(p@.len() as int)[j as int] == v@[i + j]);
            return false;
        }
    }
    assert(v@.skip(i as int).take(p@.len() as int) =~= p@);
    true
}

/// Whether `s` begins with `p`.
pub fn starts_with(s: &str, p: &str) -> (r: bool)
    ensures
        r == has_prefix(s@, p@),
{
    let v = chars_of(s);
    let w = chars_of(p);
    assert(v@.skip(0) =~= v@);
    prefix_at(&v, 0, &w)
}

/// Whether `c` occurs in `v`.
pub fn has_char(v: &Vec<char>, c: char) -> (r: bool)
    ensures
        r == v@.contains(c),
{
    for i in 0..v.len()
        invariant
            forall|j: int| 0 <= j < i ==> v@[j] != c,
    {
        if v[i] == c {
            return true;
        }
    }
    false
}

/// The position of the first `c` in `t`, or the length where there is none.
pub open spec fn first_at(t: Text, c: char) -> nat
    decreases t.len(),
{
    if t.len() == 0 || t[0] == c {
        0
    } else {
        1 + first_at(t.drop_first(), c)
    }
}

/// The position of the first `c`.
pub fn find_char(v: &Vec<char>, c: char) -> (r: usize)
    ensures
        r == first_at(v@, c),
        r <= v@.len(),
        r < v@.len() <==> v@.contains(c),
{
    let mut i: usize = 0;
    assert(v@.skip(0) =~= v@);
    while i < v.len()
        invariant
            i <= v@.len(),
            first_at(v@, c) == i + first_at(v@.skip(i as int), c),
            forall|j: int| 0 <= j < i ==> v@[j] != c,
        decreases v@.len() - i,
    {
        if v[i] == c {
            assert(v@.contains(v@[i as int]));
            return i;
        }
        assert(v@.skip(i as int).drop_first() =~= v@.skip(i as int + 1));
        i = i + 1;
    }
    i
}

/// Appends `t` to `s`.
pub fn append(s: &mut String, t: &str)
    ensures
        final(s)@ == old(s)@ + t@,
{
    s.append(t);
}

/// The texts of `a` and `b`, one after the other.
pub fn join2(a: &str, b: &str) -> (r: String)
    ensures
        r@ == a@ + b@,
{
    let mut s = a.to_owned();
    s.append(b);
    s
}

/// `s` with every occurrence of `pat`, found from the left without overlap, replaced by `rep`.
pub open spec fn replace(s: Text, pat: Text, rep: Text) -> Text
    decreases s.len(),
{
    if pat.len() == 0 || s.len() < pat.len() {
        s
    } else if s.take(pat.len() as int) == pat {
        rep + replace(s.skip(pat.len() as int), pat, rep)
    } else {
        seq![s[0]] + replace(s.drop_first(), pat, rep)
    }
}

/// `v` with every occurrence of `pat` replaced by `rep`.
pub fn replace_chars(v: &Vec<char>, pat: &Vec<char>, rep: &Vec<char>) -> (r: Vec<char>)
    ensures
        r@ == replace(v@, pat@, rep@),
{
    if pat.len() == 0 {
        return v.clone();
    }
    let mut out: Vec<char> = Vec::new();
    let mut i: usize = 0;
    assert(v@.skip(0) =~= v@);
    while i < v.len()
        invariant
            pat@.len() > 0,
            i <= v@.len(),
            out@ + replace(v@.skip(i as int), pat@, rep@) == replace(v@, pat@, rep@),
        decreases v@.len() - i,
    {
        let ghost before = out@;
        if prefix_at(v, i, pat) {
            for k in 0..rep.len()
                invariant
                    out@ == before + rep@.take(k as int),
            {
                out.push(rep[k]);
                assert(rep@.take(k as int + 1) =~= rep@.take(k as int).push(rep@[k as int]));
            }
            assert(rep@.take(rep@.len() as int) =~= rep@);
            assert(v@.skip(i as int).skip(pat@.len() as int) =~= v@.skip(i + pat@.len()));
            i = i + pat.len();
            assert(out@ + replace(v@.skip(i as int), pat@, rep@) =~= before + (rep@ + replace(
                v@.skip(i as int),
                pat@,
                rep@,
            )));
        } else {
            out.push(v[i]);
            assert(v@.skip(i as int).drop_first() =~= v@.skip(i as int + 1));
            proof {
                if v@.skip(i as int).len() < pat@.len() {
                    lemma_replace_short(v@.skip(i as int + 1), pat@, rep@);
                    assert(v@.skip(i as int) =~= seq![v@[i as int]] + v@.skip(i as int + 1));
                }
            }
            assert(out@ + replace(v@.skip(i as int + 1), pat@, rep@) =~= before + (seq![
                v@[i as int],
            ] + replace(v@.skip(i as int + 1), pat@, rep@)));
            i = i + 1;
        }
    }
    assert(v@.skip(i as int) =~= Seq::<char>::empty());
    assert(out@ + Seq::<char>::empty() =~= out@);
    out
}

proof fn lemma_replace_short(s: Text, pat: Text, rep: Text)
    requires
        s.len() < pat.len(),
    ensures
        replace(s, pat, rep) == s,
{
}

/// `s` with every occurrence of `pat` replaced by `rep`.
pub fn replace_all(s: &str, pat: &str, rep: &str) -> (r: String)
    ensures
        r@ == replace(s@, pat@, rep@),
{
    string_of(&replace_chars(&chars_of(s), &chars_of(pat), &chars_of(rep)))
}

// ---- ASCII case ----

/// An ASCII capital becomes the small letter; every other character stays.
pub open spec fn lower_char(c: char) -> char {
    if 'A' <= c <= 'Z' {
        ((c as u32) + 32) as char
    } else {
        c
    }
}

/// `s` in ASCII lower case.
pub open spec fn lower(s: Text) -> Text {
    s.map_values(|c: char| lower_char(c))
}

/// `v` in ASCII lower case.
pub fn lower_chars(v: &Vec<char>) -> (r: Vec<char>)
    ensures
        r@ == lower(v@),
{
    let mut out: Vec<char> = Vec::new();
    for i in 0..v.len()
        invariant
            out@ == lower(v@.take(i as int)),
    {
        let c = v[i];
        let d: char = if 'A' <= c && c <= 'Z' {
            ((c as u8) + 32) as char
        } else {
            c
        };
        out.push(d);
        assert(v@.take(i as int + 1) =~= v@.take(i as int).push(c));
        assert(lower(v@.take(i as int + 1)) =~= lower(v@.take(i as int)).push(d));
    }
    assert(v@.take(v@.len() as int) =~= v@);
    out
}

// ---- decimal numbers ----

/// The decimal digit of value `d`.
pub open spec fn digit_char(d: nat) -> char {
    ('0' as u32 + d) as char
}

/// `n` in decimal, without leading zeros.
pub open spec fn decimal(n: nat) -> Text
    decreases n,
{
    if n < 10 {
        seq![digit_char(n)]
    } else {
        decimal(n / 10).push(digit_char(n % 10))
    }
}

/// `n` in decimal.
pub fn decimal_of(n: u64) -> (r: String)
    ensures
        r@ == decimal(n as nat),
    decreases n,
{
    let d = (48u8 + (n % 10) as u8) as char;
    assert(d == digit_char((n % 10) as nat));
    let mut out = if n < 10 {
        String::new()
    } else {
        decimal_of(n / 10)
    };
    out.push(d);
    assert(n < 10 ==> out@ =~= decimal(n as nat));
    out
}

/// The value of a decimal digit.
pub open spec fn dec_digit(c: char) -> Option<nat> {
    if '0' <= c <= '9' {
        Some((c as nat - '0' as nat) as nat)
    } else {
        None
    }
}

/// The value of a run of decimal digits; `None` if another character occurs.
pub open spec fn dec_value(t: Text) -> Option<nat>
    decreases t.len(),
{
    if t.len() == 0 {
        Some(0)
    } else {
        match (dec_value(t.drop_last()), dec_digit(t.last())) {
            (Some(v), Some(d)) => Some(v * 10 + d),
            _ => None,
        }
    }
}

/// The value of a decimal digit.
fn dec_digit_of(c: char) -> (r: Option<u32>)
    ensures
        r is Some <==> dec_digit(c) is Some,
        r matches Some(d) ==> dec_digit(c) == Some(d as nat) && d <= 9,
{
    if '0' <= c && c <= '9' {
        Some(c as u32 - '0' as u32)
    } else {
        None
    }
}

proof fn lemma_dec_prefix(t: Text, n: int)
    requires
        0 <= n <= t.len(),
        dec_value(t) is Some,
    ensures
        dec_value(t.take(n)) is Some,
        dec_value(t.take(n))->0 <= dec_value(t)->0,
    decreases t.len(),
{
    if n < t.len() {
        lemma_dec_prefix(t.drop_last(), n);
        assert(t.drop_last().take(n) =~= t.take(n));
    } else {
        assert(t.take(n) =~= t);
    }
}

/// An unsigned number in decimal, at most `max`: an optional `+`, then digits.
pub open spec fn parse_uint(t: Text, max: nat) -> Option<nat> {
    let digits = if t.len() > 0 && t[0] == '+' {
        t.drop_first()
    } else {
        t
    };
    match dec_value(digits) {
        Some(v) => if digits.len() > 0 && v <= max {
            Some(v)
        } else {
            None
        },
        None => None,
    }
}

/// The value of decimal digits, if it is at most `max`.
pub fn dec_of(t: &Vec<char>, max: u64) -> (r: Option<u64>)
    ensures
        r is Some <==> dec_value(t@) is Some && dec_value(t@)->0 <= max,
        r matches Some(v) ==> dec_value(t@) == Some(v as nat),
{
    let mut v: u128 = 0;
    assert(t@.take(0) =~= Seq::<char>::empty());
    for i in 0..t.len()
        invariant
            v <= max,
            dec_value(t@.take(i as int)) == Some(v as nat),
    {
        proof {
            assert(t@.take(i as int + 1).drop_last() =~= t@.take(i as int));
            if dec_value(t@) is Some {
                lemma_dec_prefix(t@, i as int + 1);
            }
        }
        match dec_digit_of(t[i]) {
            Some(d) => {
                v = v * 10 + d as u128;
                if v > max as u128 {
                    return None;
                }
            },
            None => {
                return None;
            },
        }
    }
    assert(t@.take(t@.len() as int) =~= t@);
    Some(v as u64)
}

/// Reads an unsigned number that is at most `max`.
pub fn uint_of(t: &Vec<char>, max: u64) -> (r: Option<u64>)
    ensures
        r is Some <==> parse_uint(t@, max as nat) is Some,
        r matches Some(v) ==> parse_uint(t@, max as nat) == Some(v as nat) && v <= max,
{
    let start: usize = if t.len() > 0 && t[0] == '+' {
        1
    } else {
        0
    };
    let digits = sub_chars(t, start, t.len());
    assert(start == 0 ==> digits@ =~= t@);
    assert(start == 1 ==> digits@ =~= t@.drop_first());
    if digits.len() == 0 {
        return None;
    }
    dec_of(&digits, max)
}

// ---- order ----

/// The order of strings: that of their first differing character, a prefix first.
pub open spec fn lex_lt(a: Text, b: Text) -> bool
    decreases a.len(),
{
    if b.len() == 0 {
        false
    } else if a.len() == 0 {
        true
    } else if a[0] != b[0] {
        a[0] < b[0]
    } else {
        lex_lt(a.drop_first(), b.drop_first())
    }
}

/// Whether `a` comes before `b`.
pub fn str_lt(a: &str, b: &str) -> (r: bool)
    ensures
        r == lex_lt(a@, b@),
{
    let v = chars_of(a);
    let w = chars_of(b);
    let mut i: usize = 0;
    assert(v@.skip(0) =~= v@);
    assert(w@.skip(0) =~= w@);
    while i < v.len() && i < w.len()
        invariant
            v@ == a@,
            w@ == b@,
            i <= v@.len(),
            i <= w@.len(),
            lex_lt(a@, b@) == lex_lt(v@.skip(i as int), w@.skip(i as int)),
        decreases v@.len() - i,
    {
        if v[i] != w[i] {
            return v[i] < w[i];
        }
        assert(v@.skip(i as int).drop_first() =~= v@.skip(i as int + 1));
        assert(w@.skip(i as int).drop_first() =~= w@.skip(i as int + 1));
        i = i + 1;
    }
    i < w.len()
}

/// No string comes before itself.
pub proof fn lemma_lex_irreflexive(a: Text)
    ensures
        !lex_lt(a, a),
    decreases a.len(),
{
    if a.len() > 0 {
        lemma_lex_irreflexive(a.drop_first());
    }
}

/// The order is transitive.
pub proof fn lemma_lex_transitive(a: Text, b: Text, c: Text)
    requires
        lex_lt(a, b),
        lex_lt(b, c),
    ensures
        lex_lt(a, c),
    decreases a.len(),
{
    if a.len() > 0 && a[0] == b[0] && b[0] == c[0] {
        lemma_lex_transitive(a.drop_first(), b.drop_first(), c.drop_first());
    }
}

/// Two strings of which neither comes first are equal.
pub proof fn lemma_lex_total(a: Text, b: Text)
    requires
        !lex_lt(a, b),
        !lex_lt(b, a),
    ensures
        a == b,
    decreases a.len(),
{
    if a.len() > 0 && b.len() > 0 {
        lemma_lex_total(a.drop_first(), b.drop_first());
        assert(a =~= seq![a[0]] + a.drop_first());
        assert(b =~= seq![b[0]] + b.drop_first());
    } else {
        assert(a =~= b);
    }
}

// ---- laws ----

/// White space, by code point.
pub proof fn law_white_space(c: char)
    ensures
        is_white(c) <==> ({
            let n = c as u32;
            9 <= n <= 13 || n == 32 || n == 133 || n == 160 || n == 5760 || 8192 <= n <= 8202 || n
                == 8232 || n == 8233 || n == 8239 || n == 8287 || n == 12288
        }),
{
}

/// Whatever white space stands around a text that begins and ends with something else, trimming
/// takes it away and nothing more. Of white space alone nothing is left.
pub proof fn law_trimming(a: Text, s: Text, b: Text)
    requires
        forall|i: int| 0 <= i < a.len() ==> is_white(#[trigger] a[i]),
        forall|i: int| 0 <= i < b.len() ==> is_white(#[trigger] b[i]),
    ensures
        s.len() > 0 && !is_white(s[0]) && !is_white(s.last()) ==> trim(a + s + b) == s,
        trim(a).len() == 0,
{
    if s.len() > 0 && !is_white(s[0]) && !is_white(s.last()) {
        lemma_trim_start_of(a, s + b);
        assert(a + s + b =~= a + (s + b));
        assert((s + b)[0] == s[0]);
        lemma_trim_end_of(s, b);
    }
    lemma_trim_start_of(a, Seq::empty());
    assert(a + Seq::<char>::empty() =~= a);
}

proof fn lemma_trim_start_of(a: Text, s: Text)
    requires
        forall|i: int| 0 <= i < a.len() ==> is_white(#[trigger] a[i]),
        s.len() > 0 ==> !is_white(s[0]),
    ensures
        trim_start(a + s) == s,
    decreases a.len(),
{
    if a.len() > 0 {
        let rest = a.drop_first();
        assert forall|i: int| 0 <= i < rest.len() implies is_white(#[trigger] rest[i]) by {
            assert(rest[i] == a[i + 1]);
        }
        lemma_trim_start_of(rest, s);
        assert((a + s)[0] == a[0]);
        assert((a + s).drop_first() =~= rest + s);
    } else {
        assert(a + s =~= s);
    }
}

proof fn lemma_trim_end_of(s: Text, b: Text)
    requires
        forall|i: int| 0 <= i < b.len() ==> is_white(#[trigger] b[i]),
        s.len() > 0 ==> !is_white(s.last()),
    ensures
        trim_end(s + b) == s,
    decreases b.len(),
{
    if b.len() > 0 {
        let rest = b.drop_last();
        assert forall|i: int| 0 <= i < rest.len() implies is_white(#[trigger] rest[i]) by {
            assert(rest[i] == b[i]);
        }
        lemma_trim_end_of(s, rest);
        assert((s + b).last() == b.last());
        assert(b[b.len() - 1] == b.last());
        assert((s + b).drop_last() =~= s + rest);
    } else {
        assert(s + b =~= s);
    }
}

/// The pieces of a text with the separator between them are the text again, none of them holds
/// the separator, and pieces without it are found again in a text that is made of them.
pub proof fn law_splitting(s: Text, pieces: Seq<Text>, sep: char)
    ensures
        list_text(split(s, sep), sep) == s,
        split(s, sep).len() > 0,
        forall|i: int| 0 <= i < split(s, sep).len() ==> !(#[trigger] split(s, sep)[i]).contains(sep),
        pieces.len() > 0 && (forall|i: int|
            0 <= i < pieces.len() ==> !(#[trigger] pieces[i]).contains(sep)) ==> split(
            list_text(pieces, sep),
            sep,
        ) == pieces,
{
    lemma_split_joined(s, sep);
    lemma_split_nonempty(s, sep);
    assert forall|i: int| 0 <= i < split(s, sep).len() implies !(#[trigger] split(
        s,
        sep,
    )[i]).contains(sep) by {
        lemma_split_pieces(s, sep, i);
    }
    if pieces.len() > 0 && (forall|i: int|
        0 <= i < pieces.len() ==> !(#[trigger] pieces[i]).contains(sep)) {
        lemma_joined_split(pieces, sep);
    }
}

proof fn lemma_split_joined(s: Text, sep: char)
    ensures
        list_text(split(s, sep), sep) == s,
    decreases s.len(),
{
    if s.len() > 0 {
        let front = split(s.drop_last(), sep);
        lemma_split_joined(s.drop_last(), sep);
        lemma_split_nonempty(s.drop_last(), sep);
        let all = split(s, sep);
        if s.last() == sep {
            assert(all.drop_last() =~= front);
            assert(list_text(all, sep) =~= list_text(front, sep).push(sep));
        } else {
            assert(all.drop_last() =~= front.drop_last());
            if front.len() == 1 {
                assert(list_text(all, sep) =~= front[0].push(s.last()));
            } else {
                assert(list_text(all, sep) =~= list_text(front, sep).push(s.last()));
            }
        }
        assert(list_text(all, sep) =~= s);
    } else {
        assert(list_text(split(s, sep), sep) =~= s);
    }
}

/// Pieces without the separator are found again in a text that is made of them.
pub proof fn lemma_joined_split(pieces: Seq<Text>, sep: char)
    requires
        pieces.len() > 0,
        forall|i: int| 0 <= i < pieces.len() ==> !(#[trigger] pieces[i]).contains(sep),
    ensures
        split(list_text(pieces, sep), sep) == pieces,
    decreases pieces.len(),
{
    let last = pieces.last();
    assert(pieces[pieces.len() - 1] == last);
    lemma_split_whole(last, sep);
    if pieces.len() == 1 {
        assert(pieces =~= seq![last]);
    } else {
        let front = pieces.drop_last();
        assert forall|i: int| 0 <= i < front.len() implies !(#[trigger] front[i]).contains(sep) by {
            assert(front[i] == pieces[i]);
        }
        lemma_joined_split(front, sep);
        lemma_split_concat(list_text(front, sep), last, sep);
        assert(pieces =~= front + seq![last]);
    }
}

/// White space parts words and is no part of any: a run without it is one word, and two texts
/// with white space between them have the words of the one and then those of the other.
pub proof fn law_words(a: Text, w: char, b: Text)
    requires
        is_white(w),
    ensures
        words(a.push(w) + b) == words(a) + words(b),
        a.len() > 0 && (forall|i: int| 0 <= i < a.len() ==> !is_white(#[trigger] a[i])) ==> words(a)
            == seq![a],
        words(Seq::empty()) == Seq::<Text>::empty(),
{
    lemma_words_concat(a, w, b);
    if a.len() > 0 && (forall|i: int| 0 <= i < a.len() ==> !is_white(#[trigger] a[i])) {
        lemma_one_word(a);
    }
}

proof fn lemma_one_word(a: Text)
    requires
        a.len() > 0,
        forall|i: int| 0 <= i < a.len() ==> !is_white(#[trigger] a[i]),
    ensures
        words(a) == seq![a],
    decreases a.len(),
{
    let front = a.drop_last();
    assert(!is_white(a[a.len() - 1]));
    if a.len() >= 2 {
        assert forall|i: int| 0 <= i < front.len() implies !is_white(#[trigger] front[i]) by {
            assert(front[i] == a[i]);
        }
        lemma_one_word(front);
        assert(!is_white(a[a.len() - 2]));
        assert(front.push(a.last()) =~= a);
        assert(words(a) =~= seq![a]);
    } else {
        assert(front =~= Seq::<char>::empty());
        assert(words(front).len() == 0);
        assert(seq![a.last()] =~= a);
        assert(words(a) =~= seq![a]);
    }
}

proof fn lemma_words_concat(a: Text, w: char, b: Text)
    requires
        is_white(w),
    ensures
        words(a.push(w) + b) == words(a) + words(b),
        b.len() > 0 && !is_white(b.last()) ==> words(b).len() > 0,
    decreases b.len(),
{
    let t = a.push(w) + b;
    if b.len() == 0 {
        assert(t =~= a.push(w));
        assert(t.drop_last() =~= a);
        assert(words(t) =~= words(a) + words(b));
    } else {
        lemma_words_concat(a, w, b.drop_last());
        assert(t.drop_last() =~= a.push(w) + b.drop_last());
        assert(t.last() == b.last());
        if b.len() >= 2 {
            assert(t[t.len() - 2] == b[b.len() - 2]);
            assert(b.drop_last().last() == b[b.len() - 2]);
        } else {
            assert(t[t.len() - 2] == w);
        }
        assert(words(t) =~= words(a) + words(b));
    }
}

/// Lower case changes the capitals from A to Z, each to its small letter, and nothing else.
pub proof fn law_lower_case(s: Text, i: int)
    requires
        0 <= i < s.len(),
    ensures
        lower(s).len() == s.len(),
        65 <= s[i] as u32 <= 90 ==> lower(s)[i] as u32 == s[i] as u32 + 32,
        !(65 <= s[i] as u32 <= 90) ==> lower(s)[i] == s[i],
{
}

/// A number in decimal reads as that number, and has no zero in front of other digits.
pub proof fn law_decimal(n: nat)
    ensures
        dec_value(decimal(n)) == Some(n),
        decimal(n).len() > 0,
        decimal(n)[0] == '0' ==> n == 0,
        forall|i: int| 0 <= i < decimal(n).len() ==> '0' <= #[trigger] decimal(n)[i] <= '9',
        n < 10 <==> decimal(n).len() == 1,
        n < 100 <==> decimal(n).len() <= 2,
        n < 1000 <==> decimal(n).len() <= 3,
    decreases n,
{
    reveal_with_fuel(dec_value, 2);
    if n >= 10 {
        law_decimal(n / 10);
        assert(decimal(n).drop_last() =~= decimal(n / 10));
    } else {
        assert(decimal(n).drop_last() =~= Seq::<char>::empty());
    }
}

/// Digits read by their place: one more digit makes ten times the number and the digit. Another
/// character makes no number.
pub proof fn law_digits(t: Text, c: char)
    ensures
        48 <= c as u32 <= 57 ==> dec_value(t.push(c)) == (match dec_value(t) {
            Some(v) => Some((v * 10 + (c as u32 - 48)) as nat),
            None => None,
        }),
        !(48 <= c as u32 <= 57) ==> dec_value(t.push(c)) is None,
        dec_value(Seq::empty()) == Some(0nat),
{
    assert(t.push(c).drop_last() =~= t);
}

/// A number in decimal, with or without a plus sign, is read where it is at most the limit.
/// Without a digit nothing is read.
pub proof fn law_numbers_are_read(n: nat, max: nat)
    ensures
        n <= max ==> parse_uint(decimal(n), max) == Some(n) && parse_uint(
            seq!['+'] + decimal(n),
            max,
        ) == Some(n),
        n > max ==> parse_uint(decimal(n), max) is None && parse_uint(
            seq!['+'] + decimal(n),
            max,
        ) is None,
        parse_uint(Seq::empty(), max) is None,
        parse_uint(seq!['+'], max) is None,
{
    law_decimal(n);
    let t = seq!['+'] + decimal(n);
    assert(t.drop_first() =~= decimal(n));
    assert(t[0] == '+');
    assert('0' <= decimal(n)[0]);
    assert(seq!['+'].drop_first() =~= Seq::<char>::empty());
}

/// What stands in front of a text is a prefix of it, and a text that has a prefix is the prefix
/// and a rest.
pub proof fn law_prefixes(s: Text, p: Text, q: Text)
    ensures
        has_prefix(p + q, p),
        has_prefix(s, p) ==> s == p + s.skip(p.len() as int),
{
    assert((p + q).take(p.len() as int) =~= p);
    if has_prefix(s, p) {
        assert(s =~= s.take(p.len() as int) + s.skip(p.len() as int));
    }
}

/// Whether `pat` stands in `s` at position `i`.
pub open spec fn stands_at(s: Text, pat: Text, i: int) -> bool {
    0 <= i && i + pat.len() <= s.len() && s.subrange(i, i + pat.len()) == pat
}

/// A text in which the pattern does not stand is left alone. Where it stands for the first time,
/// what is in front of it stays, the replacement takes its place, and the rest is gone through
/// in the same way.
pub proof fn law_replacing(a: Text, b: Text, pat: Text, rep: Text)
    requires
        pat.len() > 0,
    ensures
        (forall|i: int| !stands_at(a, pat, i)) ==> replace(a, pat, rep) == a,
        (forall|i: int| 0 <= i < a.len() ==> !stands_at(a + pat + b, pat, i)) ==> replace(
            a + pat + b,
            pat,
            rep,
        ) == a + rep + replace(b, pat, rep),
{
    if forall|i: int| !stands_at(a, pat, i) {
        lemma_replace_none(a, pat, rep);
    }
    if forall|i: int| 0 <= i < a.len() ==> !stands_at(a + pat + b, pat, i) {
        lemma_replace_first(a, b, pat, rep);
    }
}

proof fn lemma_replace_none(a: Text, pat: Text, rep: Text)
    requires
        pat.len() > 0,
        forall|i: int| !stands_at(a, pat, i),
    ensures
        replace(a, pat, rep) == a,
    decreases a.len(),
{
    if a.len() >= pat.len() {
        assert(!stands_at(a, pat, 0));
        assert(a.subrange(0, pat.len() as int) =~= a.take(pat.len() as int));
        let rest = a.drop_first();
        assert forall|i: int| !stands_at(rest, pat, i) by {
            assert(!stands_at(a, pat, i + 1));
            if 0 <= i && i + pat.len() <= rest.len() {
                assert(rest.subrange(i, i + pat.len()) =~= a.subrange(i + 1, i + 1 + pat.len()));
            }
        }
        lemma_replace_none(rest, pat, rep);
        assert(seq![a[0]] + rest =~= a);
    }
}

proof fn lemma_replace_first(a: Text, b: Text, pat: Text, rep: Text)
    requires
        pat.len() > 0,
        forall|i: int| 0 <= i < a.len() ==> !stands_at(a + pat + b, pat, i),
    ensures
        replace(a + pat + b, pat, rep) == a + rep + replace(b, pat, rep),
    decreases a.len(),
{
    let t = a + pat + b;
    if a.len() == 0 {
        assert(t.take(pat.len() as int) =~= pat);
        assert(t.skip(pat.len() as int) =~= b);
        assert(a + rep + replace(b, pat, rep) =~= rep + replace(b, pat, rep));
    } else {
        assert(!stands_at(t, pat, 0));
        assert(t.subrange(0, pat.len() as int) =~= t.take(pat.len() as int));
        let rest = a.drop_first();
        let u = rest + pat + b;
        assert(t.drop_first() =~= u);
        assert forall|i: int| 0 <= i < rest.len() implies !stands_at(u, pat, i) by {
            assert(!stands_at(t, pat, i + 1));
            if i + pat.len() <= u.len() {
                assert(u.subrange(i, i + pat.len()) =~= t.subrange(i + 1, i + 1 + pat.len()));
            }
        }
        lemma_replace_first(rest, b, pat, rep);
        assert(seq![t[0]] + (rest + rep + replace(b, pat, rep)) =~= a + rep + replace(b, pat, rep));
    }
}

/// The first place of a character is right behind a text that does not hold it; in a text
/// without it there is none, and the length stands for that.
pub proof fn law_first_place(a: Text, b: Text, c: char)
    requires
        !a.contains(c),
    ensures
        first_at(a.push(c) + b, c) == a.len(),
        first_at(a, c) == a.len(),
    decreases a.len(),
{
    let t = a.push(c) + b;
    if a.len() > 0 {
        let rest = a.drop_first();
        assert(a.contains(a[0]));
        if rest.contains(c) {
            let i = choose|i: int| 0 <= i < rest.len() && rest[i] == c;
            assert(a[i + 1] == c);
        }
        law_first_place(rest, b, c);
        assert(t.drop_first() =~= rest.push(c) + b);
    }
}

/// The order of texts is that of their first characters that differ, and a text comes before what
/// it is the beginning of.
pub proof fn law_order(p: Text, a: Text, b: Text)
    ensures
        lex_lt(p + a, p + b) == lex_lt(a, b),
        a.len() > 0 && b.len() > 0 && a[0] != b[0] ==> (lex_lt(a, b) <==> a[0] < b[0]),
        lex_lt(p, p + b) <==> b.len() > 0,
        !lex_lt(p + b, p),
    decreases p.len(),
{
    if p.len() > 0 {
        law_order(p.drop_first(), a, b);
        assert((p + a).drop_first() =~= p.drop_first() + a);
        assert((p + b).drop_first() =~= p.drop_first() + b);
    } else {
        assert(p + a =~= a);
        assert(p + b =~= b);
    }
}

/// A list of one item, with white space around it, reads as that item; a blank list has none, and
/// two lists with the separator between them have the items of the one and then those of the
/// other.
pub proof fn law_list_items(a: Text, x: Text, b: Text, sep: char, rest: Text)
    requires
        forall|i: int| 0 <= i < a.len() ==> is_white(#[trigger] a[i]),
        forall|i: int| 0 <= i < b.len() ==> is_white(#[trigger] b[i]),
        x.len() > 0,
        !is_white(x[0]),
        !is_white(x.last()),
        !a.contains(sep),
        !x.contains(sep),
        !b.contains(sep),
    ensures
        list_items(a + x + b, sep) == seq![x],
        list_items(a, sep).len() == 0,
        list_items((a + x + b).push(sep) + rest, sep) == seq![x] + list_items(rest, sep),
{
    reveal_with_fuel(Seq::filter, 2);
    let f = |p: Text| trim(p);
    let keep = |p: Text| p.len() > 0;
    let t = a + x + b;
    law_trimming(a, x, b);
    if t.contains(sep) {
        let i = choose|i: int| 0 <= i < t.len() && t[i] == sep;
        if i < a.len() {
            assert(a[i] == sep);
        } else if i < a.len() + x.len() {
            assert(x[i - a.len()] == sep);
        } else {
            assert(b[i - a.len() - x.len()] == sep);
        }
    }
    lemma_split_whole(t, sep);
    lemma_split_whole(a, sep);
    let s = seq![t].map_values(f);
    assert(s =~= seq![x]);
    assert(s.drop_last() =~= Seq::<Text>::empty());
    assert(s.filter(keep) =~= seq![x]);
    let e = seq![a].map_values(f);
    assert(e =~= seq![trim(a)]);
    assert(e.drop_last() =~= Seq::<Text>::empty());
    assert(e.filter(keep) =~= Seq::<Text>::empty());
    lemma_list_concat(t, rest, sep);
}

/// The texts of strings are what the strings hold, one for each in order, and an optional string
/// has the text that it holds.
pub proof fn law_texts_of_strings(
    v: Seq<String>,
    c: Seq<Vec<char>>,
    i: int,
    o: Option<String>,
    s: Option<&str>,
)
    ensures
        texts(v).len() == v.len(),
        0 <= i < v.len() ==> texts(v)[i] == v[i]@,
        char_texts(c).len() == c.len(),
        0 <= i < c.len() ==> char_texts(c)[i] == c[i]@,
        o matches Some(t) ==> opt_text(o) == Some(t@),
        o is None ==> opt_text(o) is None,
        s matches Some(t) ==> opt_str(s) == Some(t@),
        s is None ==> opt_str(s) is None,
{
}

} // verus!
