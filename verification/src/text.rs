//! Text as sequences of characters: trimming, ASCII case folding, searching,
//! splitting, and the written forms of numbers.

use vstd::prelude::*;

verus! {

broadcast use vstd::string::group_string_axioms;

/// Appends one character: `String::push`.
pub assume_specification[ String::push ](s: &mut String, c: char)
    ensures
        final(s)@ == old(s)@.push(c),
;

/// Appends a whole slice: `String::push_str`.
pub assume_specification[ String::push_str ](s: &mut String, tail: &str)
    ensures
        final(s)@ == old(s)@ + tail@,
;

/// Whether two texts hold the same characters.
pub fn same(a: &str, b: &str) -> (r: bool)
    ensures
        r == (a@ == b@),
{
    let x = chars_of(a);
    let y = chars_of(b);
    if x.len() != y.len() {
        return false;
    }
    let mut i: usize = 0;
    while i < x.len()
        invariant
            x@ == a@,
            y@ == b@,
            x@.len() == y@.len(),
            i <= x@.len(),
            forall|k: int| 0 <= k < i ==> #[trigger] x@[k] == y@[k],
        decreases x@.len() - i,
    {
        if x[i] != y[i] {
            return false;
        }
        i += 1;
    }
    assert(a@ =~= b@);
    true
}

/// White space, by Unicode's `White_Space` property.
pub open spec fn is_white(c: char) -> bool {
    let n = c as u32;
    ||| 0x9 <= n <= 0xd
    ||| n == 0x20
    ||| n == 0x85
    ||| n == 0xa0
    ||| n == 0x1680
    ||| 0x2000 <= n <= 0x200a
    ||| n == 0x2028
    ||| n == 0x2029
    ||| n == 0x202f
    ||| n == 0x205f
    ||| n == 0x3000
}

fn char_is_white(c: char) -> (r: bool)
    ensures
        r == is_white(c),
{
    let n: u32 = c as u32;
    (0x9 <= n && n <= 0xd) || n == 0x20 || n == 0x85 || n == 0xa0 || n == 0x1680 || (0x2000 <= n && n
        <= 0x200a) || n == 0x2028 || n == 0x2029 || n == 0x202f || n == 0x205f || n == 0x3000
}

/// The characters of a text, in order.
pub fn chars_of(s: &str) -> (r: Vec<char>)
    ensures
        r@ == s@,
{
    let mut out: Vec<char> = Vec::new();
    for c in it: s.chars()
        invariant
            out@ == it.seq().take(it.index() as int),
    {
        out.push(c);
    }
    out
}

/// The text made of some characters, in order.
pub fn text_of(chars: &[char]) -> (r: String)
    ensures
        r@ == chars@,
{
    let mut s = String::new();
    let mut i: usize = 0;
    while i < chars.len()
        invariant
            i <= chars.len(),
            s@ == chars@.take(i as int),
        decreases chars.len() - i,
    {
        s.push(chars[i]);
        i += 1;
    }
    s
}

/// The text made of `chars[start..end]`.
pub fn text_between(chars: &[char], start: usize, end: usize) -> (r: String)
    requires
        start <= end <= chars@.len(),
    ensures
        r@ == chars@.subrange(start as int, end as int),
{
    let mut s = String::new();
    let mut i: usize = start;
    while i < end
        invariant
            start <= i <= end <= chars.len(),
            s@ == chars@.subrange(start as int, i as int),
        decreases end - i,
    {
        s.push(chars[i]);
        i += 1;
    }
    s
}

/// A copy of a text.
pub fn owned(s: &str) -> (r: String)
    ensures
        r@ == s@,
{
    s.to_owned()
}

/// A text with another behind it.
pub fn with_tail(head: &str, tail: &str) -> (r: String)
    ensures
        r@ == head@ + tail@,
{
    let mut out = owned(head);
    out.push_str(tail);
    out
}

/// A copy of an optional text.
pub fn owned_opt(s: &Option<String>) -> (r: Option<String>)
    ensures
        opt_text(r) == opt_text(*s),
{
    match s {
        Some(t) => Some(t.clone()),
        None => None,
    }
}

/// The view of an optional text.
pub open spec fn opt_text(s: Option<String>) -> Option<Seq<char>> {
    match s {
        Some(t) => Some(t@),
        None => None,
    }
}

/// A text, or why there is none.
pub open spec fn res_text(r: Result<String, String>) -> Result<Seq<char>, Seq<char>> {
    match r {
        Ok(s) => Ok(s@),
        Err(e) => Err(e@),
    }
}

/// The view of an optional borrowed text.
pub open spec fn opt_str(s: Option<&str>) -> Option<Seq<char>> {
    match s {
        Some(t) => Some(t@),
        None => None,
    }
}

/// The views of a list of texts.
pub open spec fn texts(s: Seq<String>) -> Seq<Seq<char>> {
    s.map_values(|t: String| t@)
}

/// Whether a text is in a list.
pub fn has_text(all: &Vec<String>, one: &str) -> (r: bool)
    ensures
        r == texts(all@).contains(one@),
{
    let mut i: usize = 0;
    while i < all.len()
        invariant
            i <= all@.len(),
            forall|j: int| 0 <= j < i ==> #[trigger] texts(all@)[j] != one@,
        decreases all@.len() - i,
    {
        if same(all[i].as_str(), one) {
            assert(texts(all@)[i as int] == one@);
            return true;
        }
        i += 1;
    }
    false
}

// ---------------------------------------------------------------- trimming
/// The text without its leading white space.
pub open spec fn trim_start(s: Seq<char>) -> Seq<char>
    decreases s.len(),
{
    if s.len() > 0 && is_white(s[0]) {
        trim_start(s.drop_first())
    } else {
        s
    }
}

/// The text without its trailing white space.
pub open spec fn trim_end(s: Seq<char>) -> Seq<char>
    decreases s.len(),
{
    if s.len() > 0 && is_white(s.last()) {
        trim_end(s.drop_last())
    } else {
        s
    }
}

/// The text without the white space around it.
pub open spec fn trimmed(s: Seq<char>) -> Seq<char> {
    trim_end(trim_start(s))
}

proof fn lemma_trim_start_skips(s: Seq<char>, k: int)
    requires
        0 <= k <= s.len(),
        forall|i: int| 0 <= i < k ==> is_white(#[trigger] s[i]),
        k == s.len() || !is_white(s[k]),
    ensures
        trim_start(s) == s.skip(k),
    decreases k,
{
    if k == 0 {
        assert(s.skip(0) =~= s);
    } else {
        let t = s.drop_first();
        assert forall|i: int| 0 <= i < k - 1 implies is_white(#[trigger] t[i]) by {
            assert(t[i] == s[i + 1]);
        }
        lemma_trim_start_skips(t, k - 1);
        assert(t.skip(k - 1) =~= s.skip(k));
    }
}

proof fn lemma_trim_end_takes(s: Seq<char>, k: int)
    requires
        0 <= k <= s.len(),
        forall|i: int| k <= i < s.len() ==> is_white(#[trigger] s[i]),
        k == 0 || !is_white(s[k - 1]),
    ensures
        trim_end(s) == s.take(k),
    decreases s.len() - k,
{
    if k == s.len() {
        assert(s.take(k) =~= s);
    } else {
        let t = s.drop_last();
        lemma_trim_end_takes(t, k);
        assert(t.take(k) =~= s.take(k));
    }
}

/// `str::trim`.
pub fn trim(s: &str) -> (r: String)
    ensures
        r@ == trimmed(s@),
{
    let chars = chars_of(s);
    let n: usize = chars.len();
    let mut start: usize = 0;
    while start < n && char_is_white(chars[start])
        invariant
            n == chars@.len(),
            start <= n,
            forall|i: int| 0 <= i < start ==> is_white(#[trigger] chars@[i]),
        ensures
            start == n || !is_white(chars@[start as int]),
        decreases n - start,
    {
        start += 1;
    }
    proof {
        lemma_trim_start_skips(chars@, start as int);
    }
    let ghost rest = chars@.skip(start as int);
    let mut end: usize = n;
    while end > start && char_is_white(chars[end - 1])
        invariant
            n == chars@.len(),
            start <= end <= n,
            rest == chars@.skip(start as int),
            forall|i: int| end - start <= i < rest.len() ==> is_white(#[trigger] rest[i]),
        ensures
            end == start || !is_white(chars@[end - 1]),
        decreases end,
    {
        end -= 1;
        assert forall|i: int| end - start <= i < rest.len() implies is_white(#[trigger] rest[i]) by {
            if i == end - start {
                assert(rest[i] == chars@[end as int]);
            }
        }
    }
    proof {
        if end > start {
            assert(rest[end - start - 1] == chars@[end - 1]);
        }
        lemma_trim_end_takes(rest, end - start);
        assert(rest.take(end - start) =~= chars@.subrange(start as int, end as int));
    }
    text_between(&chars, start, end)
}

/// Whether nothing but white space is in a text.
pub fn is_blank(s: &str) -> (r: bool)
    ensures
        r == (trimmed(s@).len() == 0),
{
    trim(s).as_str().is_empty()
}

/// Trimming leaves a text that trimming does not change.
pub proof fn trimming_is_idempotent(s: Seq<char>)
    ensures
        trimmed(trimmed(s)) == trimmed(s),
{
    lemma_trim_start_shape(s);
    let a = trim_start(s);
    lemma_trim_end_shape(a);
    let b = trim_end(a);
    if b.len() > 0 {
        assert(a.len() > 0 && b[0] == a[0]);
        lemma_trim_start_skips(b, 0);
        assert(b.skip(0) =~= b);
        lemma_trim_end_takes(b, b.len() as int);
        assert(b.take(b.len() as int) =~= b);
    }
}

proof fn lemma_trim_start_shape(s: Seq<char>)
    ensures
        trim_start(s).len() > 0 ==> !is_white(trim_start(s)[0]),
    decreases s.len(),
{
    if s.len() > 0 && is_white(s[0]) {
        lemma_trim_start_shape(s.drop_first());
    }
}

proof fn lemma_trim_end_shape(s: Seq<char>)
    ensures
        trim_end(s).len() <= s.len(),
        trim_end(s) == s.take(trim_end(s).len() as int),
        trim_end(s).len() > 0 ==> !is_white(trim_end(s).last()),
    decreases s.len(),
{
    if s.len() > 0 && is_white(s.last()) {
        lemma_trim_end_shape(s.drop_last());
        assert(s.drop_last().take(trim_end(s).len() as int) =~= s.take(trim_end(s).len() as int));
    } else {
        assert(s.take(s.len() as int) =~= s);
    }
}

// ---------------------------------------------------------------- case
/// One character in ASCII lower case.
pub open spec fn lower(c: char) -> char {
    if 'A' <= c && c <= 'Z' {
        ((c as u32) + 32) as char
    } else {
        c
    }
}

/// A text in ASCII lower case.
pub open spec fn lowered(s: Seq<char>) -> Seq<char> {
    s.map_values(|c: char| lower(c))
}

fn lower_char(c: char) -> (r: char)
    ensures
        r == lower(c),
{
    if 'A' <= c && c <= 'Z' {
        (c as u8 + 32) as char
    } else {
        c
    }
}

/// `str::to_ascii_lowercase`.
pub fn to_lower(s: &str) -> (r: String)
    ensures
        r@ == lowered(s@),
{
    let chars = chars_of(s);
    let mut out = String::new();
    let mut i: usize = 0;
    while i < chars.len()
        invariant
            i <= chars.len(),
            out@ == lowered(chars@.take(i as int)),
        decreases chars.len() - i,
    {
        out.push(lower_char(chars[i]));
        i += 1;
        assert(lowered(chars@.take(i as int)) =~= lowered(chars@.take(i - 1)).push(
            lower(chars@[i - 1]),
        ));
    }
    assert(chars@.take(chars@.len() as int) =~= chars@);
    out
}

// ---------------------------------------------------------------- searching
/// `part` stands in `s` from index `at` on.
pub open spec fn occurs_at(s: Seq<char>, part: Seq<char>, at: int) -> bool {
    0 <= at && at + part.len() <= s.len() && s.subrange(at, at + part.len()) == part
}

/// `part` stands somewhere in `s`.
pub open spec fn occurs(s: Seq<char>, part: Seq<char>) -> bool {
    exists|at: int| occurs_at(s, part, at)
}

/// `s` begins with `part`.
pub open spec fn has_prefix(s: Seq<char>, part: Seq<char>) -> bool {
    occurs_at(s, part, 0)
}

/// `s` ends with `part`.
pub open spec fn has_suffix(s: Seq<char>, part: Seq<char>) -> bool {
    occurs_at(s, part, s.len() - part.len())
}

fn stands_at(s: &[char], part: &[char], at: usize) -> (r: bool)
    ensures
        r == occurs_at(s@, part@, at as int),
{
    let n: usize = s.len();
    if at > n || n - at < part.len() {
        return false;
    }
    let ghost here = s@.subrange(at as int, at + part@.len());
    let mut i: usize = 0;
    while i < part.len()
        invariant
            i <= part.len(),
            n == s@.len(),
            at + part@.len() <= n,
            here == s@.subrange(at as int, at + part@.len()),
            forall|j: int| 0 <= j < i ==> here[j] == #[trigger] part@[j],
        decreases part.len() - i,
    {
        assert(here[i as int] == s@[at + i]);
        if s[at + i] != part[i] {
            return false;
        }
        i += 1;
    }
    assert(here =~= part@);
    true
}

/// `str::starts_with` with a text.
pub fn starts_with(s: &str, part: &str) -> (r: bool)
    ensures
        r == has_prefix(s@, part@),
{
    stands_at(&chars_of(s), &chars_of(part), 0)
}

/// `str::ends_with` with a text.
pub fn ends_with(s: &str, part: &str) -> (r: bool)
    ensures
        r == has_suffix(s@, part@),
{
    let a = chars_of(s);
    let b = chars_of(part);
    if a.len() < b.len() {
        return false;
    }
    stands_at(&a, &b, a.len() - b.len())
}

/// `str::contains` with a text.
pub fn contains(s: &str, part: &str) -> (r: bool)
    ensures
        r == occurs(s@, part@),
{
    let a = chars_of(s);
    let b = chars_of(part);
    let mut at: usize = 0;
    while at < a.len()
        invariant
            at <= a.len(),
            a@ == s@,
            b@ == part@,
            forall|k: int| 0 <= k < at ==> !occurs_at(s@, part@, k),
        decreases a.len() - at,
    {
        if stands_at(&a, &b, at) {
            return true;
        }
        at += 1;
    }
    let r = stands_at(&a, &b, a.len());
    assert(r == occurs(s@, part@)) by {
        if occurs(s@, part@) {
            let k = choose|k: int| occurs_at(s@, part@, k);
            assert(0 <= k <= s@.len());
        }
    }
    r
}

/// Whether one character is in a text.
pub fn contains_char(s: &str, c: char) -> (r: bool)
    ensures
        r == s@.contains(c),
{
    let a = chars_of(s);
    let mut i: usize = 0;
    while i < a.len()
        invariant
            i <= a.len(),
            a@ == s@,
            forall|k: int| 0 <= k < i ==> s@[k] != c,
        decreases a.len() - i,
    {
        if a[i] == c {
            assert(s@[i as int] == c);
            return true;
        }
        i += 1;
    }
    false
}

/// Every character that `swap` names replaced by `_`.
pub open spec fn underscored(s: Seq<char>, dashes: bool) -> Seq<char> {
    s.map_values(|c: char| if c == ' ' || (dashes && c == '-') { '_' } else { c })
}

/// Spaces, and dashes too where `dashes` says so, turned into underscores.
pub fn underscore(s: &str, dashes: bool) -> (r: String)
    ensures
        r@ == underscored(s@, dashes),
{
    let chars = chars_of(s);
    let mut out = String::new();
    let mut i: usize = 0;
    while i < chars.len()
        invariant
            i <= chars.len(),
            out@ == underscored(chars@.take(i as int), dashes),
        decreases chars.len() - i,
    {
        let c = chars[i];
        if c == ' ' || (dashes && c == '-') {
            out.push('_');
        } else {
            out.push(c);
        }
        i += 1;
        assert(underscored(chars@.take(i as int), dashes) =~= underscored(
            chars@.take(i - 1),
            dashes,
        ).push(if c == ' ' || (dashes && c == '-') { '_' } else { c }));
    }
    assert(chars@.take(chars@.len() as int) =~= chars@);
    out
}

/// The first `n` characters, or all of them where there are fewer.
pub open spec fn clipped(s: Seq<char>, n: nat) -> Seq<char> {
    if s.len() <= n {
        s
    } else {
        s.take(n as int)
    }
}

/// At most the first `max_chars` characters of a text.
pub fn truncate_context(s: &str, max_chars: usize) -> (r: String)
    ensures
        r@ == clipped(s@, max_chars as nat),
{
    let n: usize = max_chars;
    let chars = chars_of(s);
    if chars.len() <= n {
        owned(s)
    } else {
        let r = text_between(&chars, 0, n);
        assert(chars@.subrange(0, n as int) =~= s@.take(n as int));
        r
    }
}

// ---------------------------------------------------------------- splitting
/// The pieces of a text between the occurrences of one character.
pub open spec fn split_on(s: Seq<char>, sep: char) -> Seq<Seq<char>>
    decreases s.len(),
{
    if s.len() == 0 {
        seq![Seq::empty()]
    } else {
        let head = split_on(s.drop_last(), sep);
        if s.last() == sep {
            head.push(Seq::empty())
        } else {
            head.update(head.len() - 1, head.last().push(s.last()))
        }
    }
}

proof fn lemma_split_nonempty(s: Seq<char>, sep: char)
    ensures
        split_on(s, sep).len() > 0,
    decreases s.len(),
{
    if s.len() > 0 {
        lemma_split_nonempty(s.drop_last(), sep);
    }
}

/// `str::split` at one character.
pub fn split(s: &str, sep: char) -> (r: Vec<String>)
    ensures
        texts(r@) == split_on(s@, sep),
{
    let chars = chars_of(s);
    let mut out: Vec<String> = Vec::new();
    let mut piece = String::new();
    let mut i: usize = 0;
    assert(chars@.take(0) =~= Seq::empty());
    assert(texts(out@).push(piece@) =~= split_on(chars@.take(0), sep));
    while i < chars.len()
        invariant
            i <= chars.len(),
            texts(out@).push(piece@) == split_on(chars@.take(i as int), sep),
        decreases chars.len() - i,
    {
        let c = chars[i];
        let ghost before = chars@.take(i as int);
        let ghost done = texts(out@);
        i += 1;
        assert(chars@.take(i as int).drop_last() =~= before);
        if c == sep {
            out.push(piece);
            piece = String::new();
            assert(texts(out@) =~= split_on(before, sep));
        } else {
            let ghost was = piece@;
            piece.push(c);
            assert(texts(out@).push(piece@) =~= done.push(was).update(done.len() as int, was.push(c)));
        }
    }
    assert(chars@.take(chars@.len() as int) =~= chars@);
    let ghost done = texts(out@);
    let ghost last = piece@;
    out.push(piece);
    assert(texts(out@) =~= done.push(last));
    out
}

/// The part of a text behind the last occurrence of a character.
pub open spec fn after_last(s: Seq<char>, sep: char) -> Option<Seq<char>>
    decreases s.len(),
{
    if s.len() == 0 {
        None
    } else if s.last() == sep {
        Some(Seq::empty())
    } else {
        match after_last(s.drop_last(), sep) {
            Some(tail) => Some(tail.push(s.last())),
            None => None,
        }
    }
}

proof fn lemma_after_last(s: Seq<char>, sep: char, k: int)
    requires
        0 <= k <= s.len(),
        forall|i: int| k <= i < s.len() ==> s[i] != sep,
        k == 0 || s[k - 1] == sep,
    ensures
        after_last(s, sep) == if k == 0 {
            None::<Seq<char>>
        } else {
            Some(s.skip(k))
        },
    decreases s.len() - k,
{
    if k == s.len() {
        if k > 0 {
            assert(s.skip(k) =~= Seq::empty());
        }
    } else {
        lemma_after_last(s.drop_last(), sep, k);
        if k > 0 {
            assert(s.drop_last().skip(k).push(s.last()) =~= s.skip(k));
        }
    }
}

/// The second half of `str::rsplit_once` at one character.
pub fn tail_after_last(s: &str, sep: char) -> (r: Option<String>)
    ensures
        opt_text(r) == after_last(s@, sep),
{
    let chars = chars_of(s);
    let mut k: usize = chars.len();
    while k > 0 && chars[k - 1] != sep
        invariant
            k <= chars.len(),
            forall|i: int| k <= i < chars@.len() ==> chars@[i] != sep,
        ensures
            k == 0 || chars@[k - 1] == sep,
        decreases k,
    {
        k -= 1;
    }
    proof {
        lemma_after_last(chars@, sep, k as int);
    }
    if k == 0 {
        None
    } else {
        let n: usize = chars.len();
        let r = text_between(&chars, k, n);
        assert(r@ =~= chars@.skip(k as int));
        Some(r)
    }
}

/// Some pieces with a separator between each two.
pub open spec fn joined(parts: Seq<Seq<char>>, sep: Seq<char>) -> Seq<char>
    decreases parts.len(),
{
    if parts.len() == 0 {
        Seq::empty()
    } else if parts.len() == 1 {
        parts[0]
    } else {
        joined(parts.drop_last(), sep) + sep + parts.last()
    }
}

/// `[String]::join`.
pub fn join(parts: &Vec<String>, sep: &str) -> (r: String)
    ensures
        r@ == joined(texts(parts@), sep@),
{
    let mut out = String::new();
    let mut i: usize = 0;
    while i < parts.len()
        invariant
            i <= parts.len(),
            out@ == joined(texts(parts@).take(i as int), sep@),
        decreases parts.len() - i,
    {
        let ghost all = texts(parts@);
        assert(all.take(i + 1).drop_last() =~= all.take(i as int));
        if i > 0 {
            out.push_str(sep);
        } else {
            assert(joined(all.take(0), sep@) =~= Seq::empty());
        }
        out.push_str(parts[i].as_str());
        i += 1;
        assert(out@ =~= joined(all.take(i as int), sep@));
    }
    assert(texts(parts@).take(parts@.len() as int) =~= texts(parts@));
    out
}

// ---------------------------------------------------------------- order
/// `a` stands before `b`, or is `b`, in the order of code points.
pub open spec fn text_le(a: Seq<char>, b: Seq<char>) -> bool
    decreases a.len(),
{
    if a.len() == 0 {
        true
    } else if b.len() == 0 {
        false
    } else if a[0] != b[0] {
        (a[0] as int) < (b[0] as int)
    } else {
        text_le(a.drop_first(), b.drop_first())
    }
}

/// `<=` on `str`: code point order is also the order of the UTF-8 bytes.
pub fn le(a: &str, b: &str) -> (r: bool)
    ensures
        r == text_le(a@, b@),
{
    let x = chars_of(a);
    let y = chars_of(b);
    let mut i: usize = 0;
    assert(x@.skip(0) =~= x@);
    assert(y@.skip(0) =~= y@);
    while i < x.len()
        invariant
            i <= x.len(),
            i <= y.len(),
            x@ == a@,
            y@ == b@,
            text_le(a@, b@) == text_le(x@.skip(i as int), y@.skip(i as int)),
        decreases x.len() - i,
    {
        if i >= y.len() {
            return false;
        }
        if x[i] != y[i] {
            let cx: char = x[i];
            let cy: char = y[i];
            return cx < cy;
        }
        assert(x@.skip(i as int).drop_first() =~= x@.skip(i + 1));
        assert(y@.skip(i as int).drop_first() =~= y@.skip(i + 1));
        i += 1;
    }
    true
}

/// Of two texts, one stands before the other or they are the same.
pub proof fn text_order_is_total(a: Seq<char>, b: Seq<char>)
    ensures
        text_le(a, b) || text_le(b, a),
        text_le(a, b) && text_le(b, a) ==> a == b,
    decreases a.len(),
{
    if a.len() > 0 && b.len() > 0 && a[0] == b[0] {
        text_order_is_total(a.drop_first(), b.drop_first());
        if text_le(a, b) && text_le(b, a) {
            assert(a =~= seq![a[0]] + a.drop_first());
            assert(b =~= seq![b[0]] + b.drop_first());
        }
    } else if a.len() == 0 && b.len() == 0 {
        assert(a =~= b);
    } else if a.len() > 0 && b.len() > 0 {
        assert(a[0] as int != b[0] as int);
    }
}

/// A text stands before another where the first character in which they differ
/// is the smaller one.
pub proof fn first_difference_decides(a: Seq<char>, b: Seq<char>, k: int)
    requires
        0 <= k < a.len(),
        k < b.len(),
        forall|i: int| 0 <= i < k ==> #[trigger] a[i] == b[i],
        (a[k] as int) < (b[k] as int),
    ensures
        text_le(a, b),
        a != b,
    decreases k,
{
    if k > 0 {
        assert(a[0] == b[0]);
        assert forall|i: int| 0 <= i < k - 1 implies #[trigger] a.drop_first()[i]
            == b.drop_first()[i] by {
            assert(a[i + 1] == b[i + 1]);
        }
        first_difference_decides(a.drop_first(), b.drop_first(), k - 1);
    }
}

/// The order of texts is transitive.
pub proof fn text_order_is_transitive(a: Seq<char>, b: Seq<char>, c: Seq<char>)
    requires
        text_le(a, b),
        text_le(b, c),
    ensures
        text_le(a, c),
    decreases a.len(),
{
    if a.len() > 0 && b.len() > 0 && c.len() > 0 && a[0] == b[0] && b[0] == c[0] {
        text_order_is_transitive(a.drop_first(), b.drop_first(), c.drop_first());
    }
}

/// A list of texts of its own.
pub fn owned_list(items: &Vec<String>) -> (r: Vec<String>)
    ensures
        texts(r@) == texts(items@),
{
    let mut out: Vec<String> = Vec::new();
    let mut i: usize = 0;
    while i < items.len()
        invariant
            i <= items@.len(),
            texts(out@) == texts(items@).take(i as int),
        decreases items@.len() - i,
    {
        let ghost before = texts(out@);
        out.push(owned(items[i].as_str()));
        assert(texts(out@) =~= before.push(items@[i as int]@));
        assert(texts(items@).take(i + 1) =~= before.push(items@[i as int]@));
        i += 1;
    }
    assert(texts(items@).take(i as int) =~= texts(items@));
    out
}

/// Trimming takes the blanks around a text and nothing else: what is left is a
/// piece of it with nothing but blanks before and behind it, and neither begins
/// nor ends with one.
pub proof fn trimming_takes_the_blanks_around(s: Seq<char>, i: int, j: int)
    requires
        0 <= i <= j <= s.len(),
        forall|k: int| 0 <= k < i ==> is_white(#[trigger] s[k]),
        forall|k: int| j <= k < s.len() ==> is_white(#[trigger] s[k]),
        i < j ==> !is_white(s[i]) && !is_white(s[j - 1]),
    ensures
        trimmed(s) == s.subrange(i, j),
{
    if i < j {
        lemma_trim_start_skips(s, i);
        let rest = s.skip(i);
        assert forall|k: int| j - i <= k < rest.len() implies is_white(#[trigger] rest[k]) by {
            assert(rest[k] == s[k + i]);
        }
        assert(rest[j - i - 1] == s[j - 1]);
        lemma_trim_end_takes(rest, j - i);
        assert(rest.take(j - i) =~= s.subrange(i, j));
    } else {
        let n = s.len() as int;
        assert forall|k: int| 0 <= k < n implies is_white(#[trigger] s[k]) by {}
        lemma_trim_start_skips(s, n);
        assert(s.skip(n) =~= Seq::<char>::empty());
        assert(s.subrange(i, j) =~= Seq::<char>::empty());
    }
}

/// Blanks are the space, the tab, the ends of lines and the wider ones; letters,
/// digits and marks are none.
pub proof fn blanks_are_no_marks(c: char)
    ensures
        c == ' ' || c == '\t' || c == '\n' || c == '\r' ==> is_white(c),
        33 <= c as u32 <= 126 ==> !is_white(c),
{
}

/// Lowering changes the large letters of the alphabet alone.
pub proof fn lowering_changes_large_letters(s: Seq<char>, i: int)
    requires
        0 <= i < s.len(),
    ensures
        lowered(s).len() == s.len(),
        65 <= s[i] as u32 <= 90 ==> lowered(s)[i] as u32 == s[i] as u32 + 32,
        !(65 <= s[i] as u32 <= 90) ==> lowered(s)[i] == s[i],
{
}

/// The parts that a text is split into hold no separator, and joined by it they
/// are the text.
pub proof fn parts_join_to_the_text(s: Seq<char>, sep: char)
    ensures
        joined(split_on(s, sep), seq![sep]) == s,
        split_on(s, sep).len() > 0,
        forall|i: int| 0 <= i < split_on(s, sep).len() ==> !(#[trigger] split_on(s, sep)[i]).contains(
            sep,
        ),
    decreases s.len(),
{
    let parts = split_on(s, sep);
    if s.len() == 0 {
        assert(parts[0] =~= s);
    } else {
        let rest = s.drop_last();
        let head = split_on(rest, sep);
        parts_join_to_the_text(rest, sep);
        if s.last() == sep {
            assert(parts.drop_last() =~= head);
            assert(joined(parts, seq![sep]) =~= s);
        } else {
            let n = head.len() - 1;
            let last = head.last().push(s.last());
            assert(parts.drop_last() =~= head.drop_last());
            assert(parts.last() == last);
            if n > 0 {
                assert(joined(parts, seq![sep]) =~= joined(head, seq![sep]).push(s.last()));
            } else {
                assert(joined(parts, seq![sep]) =~= joined(head, seq![sep]).push(s.last()));
            }
            assert(rest.push(s.last()) =~= s);
            assert forall|i: int| 0 <= i < parts.len() implies !(#[trigger] parts[i]).contains(
                sep,
            ) by {
                if i < n {
                    assert(parts[i] == head[i]);
                } else {
                    assert(!head[n].contains(sep));
                    if last.contains(sep) {
                        let k = choose|k: int| 0 <= k < last.len() && last[k] == sep;
                        assert(k < head[n].len());
                        assert(head[n][k] == sep);
                    }
                }
            }
        }
    }
}

/// What follows the last separator is the rest of the text behind it and holds
/// none; there is none exactly where the text holds none.
pub proof fn the_ending_follows_the_last_separator(s: Seq<char>, sep: char)
    ensures
        after_last(s, sep) is None <==> !s.contains(sep),
        after_last(s, sep) matches Some(tail) ==> {
            &&& tail.len() < s.len()
            &&& s.skip(s.len() - tail.len()) == tail
            &&& s[s.len() - tail.len() - 1] == sep
            &&& !tail.contains(sep)
        },
    decreases s.len(),
{
    if s.len() > 0 {
        let rest = s.drop_last();
        the_ending_follows_the_last_separator(rest, sep);
        if s.last() == sep {
            assert(s[s.len() - 1] == sep);
            assert(s.skip(s.len() as int) =~= Seq::<char>::empty());
        } else {
            if let Some(tail) = after_last(rest, sep) {
                let now = tail.push(s.last());
                assert(s.skip(s.len() - now.len()) =~= now);
                assert(s[s.len() - now.len() - 1] == sep);
                if now.contains(sep) {
                    let k = choose|k: int| 0 <= k < now.len() && now[k] == sep;
                    assert(k < tail.len());
                    assert(tail[k] == sep);
                }
            } else {
                if s.contains(sep) {
                    let k = choose|k: int| 0 <= k < s.len() && s[k] == sep;
                    assert(k < rest.len());
                    assert(rest[k] == sep);
                }
            }
        }
    }
}

/// Blanks and, where that is asked for, hyphens become underscores; nothing else
/// changes.
pub proof fn blanks_become_underscores(s: Seq<char>, dashes: bool, i: int)
    requires
        0 <= i < s.len(),
    ensures
        underscored(s, dashes).len() == s.len(),
        s[i] == ' ' ==> underscored(s, dashes)[i] == '_',
        s[i] == '-' && dashes ==> underscored(s, dashes)[i] == '_',
        s[i] == '-' && !dashes ==> underscored(s, dashes)[i] == '-',
        s[i] != ' ' && s[i] != '-' ==> underscored(s, dashes)[i] == s[i],
{
}

/// A text is cut to its first characters, and a short one not at all.
pub proof fn long_texts_are_cut(s: Seq<char>, n: nat)
    ensures
        clipped(s, n).len() <= n,
        clipped(s, n).is_prefix_of(s),
        clipped(s, n).len() == n || clipped(s, n) == s,
{
    if s.len() > n {
        assert(s.take(n as int) =~= s.subrange(0, n as int));
    } else {
        assert(s.take(s.len() as int) =~= s);
    }
}

/// Texts are joined in order, with the separator between each two.
pub proof fn texts_are_joined_in_order(parts: Seq<Seq<char>>, part: Seq<char>, sep: Seq<char>)
    ensures
        parts.len() == 0 ==> joined(parts.push(part), sep) == part,
        parts.len() > 0 ==> joined(parts.push(part), sep) == joined(parts, sep) + sep + part,
{
    assert(parts.push(part).drop_last() =~= parts);
}

} // verus!
