//! Text primitives shared by the pipeline stages.
//!
//! Every function here is specified over `Seq<char>`, the view of `str` and
//! `String`. Executable code that needs to look at a text by position first
//! copies it into a vector of characters.

use vstd::prelude::*;
use vstd::std_specs::iter::IteratorSpec;
use vstd::string::*;

verus! {

broadcast use vstd::string::group_string_axioms;

/// The views of a sequence of strings.
pub open spec fn texts(v: Seq<String>) -> Seq<Seq<char>> {
    v.map_values(|s: String| s@)
}

/// The characters of a string slice, in order.
pub fn chars_of(s: &str) -> (v: Vec<char>)
    ensures
        v@ == s@,
{
    let mut v: Vec<char> = Vec::new();
    for c in it: s.chars()
        invariant
            it.seq() == s@,
            v@ == s@.take(it.index()),
    {
        v.push(c);
        assert(s@.take(it.index() + 1) =~= s@.take(it.index()).push(c));
    }
    assert(s@.take(s@.len() as int) =~= s@);
    v
}

/// `String::push` of the standard library: the character is appended to
/// the end of the string.
pub assume_specification[ String::push ](s: &mut String, c: char)
    ensures
        final(s)@ == old(s)@.push(c),
;

/// The text made of the characters `from..to` of `chars`.
pub fn text_of(chars: &Vec<char>, from: usize, to: usize) -> (r: String)
    requires
        from <= to <= chars@.len(),
    ensures
        r@ == chars@.subrange(from as int, to as int),
{
    let mut r = String::new();
    let mut i: usize = from;
    assert(r@ =~= chars@.subrange(from as int, from as int));
    while i < to
        invariant
            from <= i <= to <= chars@.len(),
            r@ == chars@.subrange(from as int, i as int),
        decreases to - i,
    {
        r.push(chars[i]);
        assert(chars@.subrange(from as int, i + 1) =~= chars@.subrange(from as int, i as int).push(
            chars@[i as int],
        ));
        i += 1;
    }
    r
}

/// The concatenation of two string slices.
pub fn append(a: &str, b: &str) -> (r: String)
    ensures
        r@ == a@ + b@,
{
    let mut out = String::from_str(a);
    out.append(b);
    out
}

/// Whether two string slices hold the same characters.
pub fn same_text(a: &str, b: &str) -> (r: bool)
    ensures
        r == (a@ == b@),
{
    let mut left = a.chars();
    let mut right = b.chars();
    let ghost mut seen: int = 0;
    proof {
        assert(a@.skip(0) =~= a@);
        assert(b@.skip(0) =~= b@);
    }
    loop
        invariant
            left.decrease() is Some,
            0 <= seen <= a@.len(),
            seen <= b@.len(),
            left.remaining() == a@.skip(seen),
            right.remaining() == b@.skip(seen),
            a@.take(seen) == b@.take(seen),
        decreases left.decrease()->0,
    {
        let x = left.next();
        let y = right.next();
        match (x, y) {
            (None, None) => {
                assert(a@ =~= a@.take(seen));
                assert(b@ =~= b@.take(seen));
                return true;
            },
            (Some(p), Some(q)) => {
                assert(p == a@[seen]);
                assert(q == b@[seen]);
                if p != q {
                    return false;
                }
                proof {
                    assert(a@.take(seen + 1) =~= a@.take(seen).push(p));
                    assert(b@.take(seen + 1) =~= b@.take(seen).push(q));
                    assert(a@.skip(seen).drop_first() =~= a@.skip(seen + 1));
                    assert(b@.skip(seen).drop_first() =~= b@.skip(seen + 1));
                    seen = seen + 1;
                }
            },
            _ => {
                assert(a@.len() != b@.len());
                return false;
            },
        }
    }
}

/// Whether `s` begins with `prefix`.
pub fn starts_with(s: &str, prefix: &str) -> (r: bool)
    ensures
        r == prefix@.is_prefix_of(s@),
{
    let mut whole = s.chars();
    let mut head = prefix.chars();
    let ghost mut seen: int = 0;
    proof {
        assert(s@.skip(0) =~= s@);
        assert(prefix@.skip(0) =~= prefix@);
    }
    loop
        invariant
            head.decrease() is Some,
            0 <= seen <= prefix@.len(),
            seen <= s@.len(),
            whole.remaining() == s@.skip(seen),
            head.remaining() == prefix@.skip(seen),
            s@.take(seen) == prefix@.take(seen),
        decreases head.decrease()->0,
    {
        let q = match head.next() {
            Some(q) => q,
            None => {
                assert(prefix@ =~= prefix@.take(seen));
                assert(s@.subrange(0, seen) =~= s@.take(seen));
                return true;
            },
        };
        assert(q == prefix@[seen]);
        match whole.next() {
            Some(p) => {
                assert(p == s@[seen]);
                if p != q {
                    assert(prefix@.len() <= s@.len() ==> s@.subrange(0, prefix@.len() as int)[seen]
                        != prefix@[seen]);
                    return false;
                }
                proof {
                    assert(s@.take(seen + 1) =~= s@.take(seen).push(p));
                    assert(prefix@.take(seen + 1) =~= prefix@.take(seen).push(q));
                    assert(s@.skip(seen).drop_first() =~= s@.skip(seen + 1));
                    assert(prefix@.skip(seen).drop_first() =~= prefix@.skip(seen + 1));
                    seen = seen + 1;
                }
            },
            None => {
                return false;
            },
        }
    }
}

/// Whether `s` ends with `suffix`.
pub fn ends_with(s: &str, suffix: &str) -> (r: bool)
    ensures
        r == suffix@.is_suffix_of(s@),
{
    let x = chars_of(s);
    let p = chars_of(suffix);
    if p.len() > x.len() {
        return false;
    }
    let shift: usize = x.len() - p.len();
    let mut i: usize = 0;
    while i < p.len()
        invariant
            x@ == s@,
            p@ == suffix@,
            p.len() <= x.len(),
            shift == x.len() - p.len(),
            0 <= i <= p.len(),
            forall|k: int| 0 <= k < i ==> x@[shift + k] == p@[k],
        decreases p.len() - i,
    {
        if x[shift + i] != p[i] {
            assert(x@.subrange(shift as int, x@.len() as int)[i as int] != p@[i as int]);
            return false;
        }
        i += 1;
    }
    assert(x@.subrange(shift as int, x@.len() as int) =~= p@);
    true
}

/// The least index at which `c` occurs in `s`, or `s.len()` where it does
/// not occur.
pub open spec fn first_index(s: Seq<char>, c: char) -> int
    decreases s.len(),
{
    if s.len() == 0 {
        0
    } else if s[0] == c {
        0
    } else {
        1 + first_index(s.drop_first(), c)
    }
}

/// `first_index` is within bounds, points at `c` when inside, and nothing
/// before it is `c`.
pub proof fn lemma_first_index(s: Seq<char>, c: char)
    ensures
        0 <= first_index(s, c) <= s.len(),
        first_index(s, c) < s.len() ==> s[first_index(s, c)] == c,
        forall|k: int| 0 <= k < first_index(s, c) ==> s[k] != c,
    decreases s.len(),
{
    if s.len() > 0 && s[0] != c {
        let rest = s.drop_first();
        lemma_first_index(rest, c);
        assert forall|k: int| 0 <= k < first_index(s, c) implies s[k] != c by {
            if k > 0 {
                assert(s[k] == rest[k - 1]);
            }
        }
    }
}

/// An index `i` that holds `c`, with no `c` before it, is the first index.
pub proof fn lemma_first_index_is(s: Seq<char>, c: char, i: int)
    requires
        0 <= i <= s.len(),
        i < s.len() ==> s[i] == c,
        forall|k: int| 0 <= k < i ==> s[k] != c,
    ensures
        first_index(s, c) == i,
{
    lemma_first_index(s, c);
    let j = first_index(s, c);
    if j < i {
        assert(s[j] == c);
    } else if i < j {
        assert(s[i] == c);
    }
}

/// The pieces of `s` between occurrences of `sep`: always at least one
/// piece, none of which holds `sep`.
pub open spec fn split(s: Seq<char>, sep: char) -> Seq<Seq<char>>
    decreases s.len(),
{
    let i = first_index(s, sep);
    if 0 <= i < s.len() {
        seq![s.take(i)] + split(s.skip(i + 1), sep)
    } else {
        seq![s]
    }
}

/// The pieces of `parts` written one after the other with `sep` between
/// neighbours.
pub open spec fn join(parts: Seq<Seq<char>>, sep: char) -> Seq<char>
    decreases parts.len(),
{
    if parts.len() == 0 {
        Seq::empty()
    } else if parts.len() == 1 {
        parts[0]
    } else {
        parts[0] + seq![sep] + join(parts.drop_first(), sep)
    }
}

/// Splitting loses nothing: the pieces hold no separator and joining them
/// gives the text back.
pub proof fn lemma_split_join(s: Seq<char>, sep: char)
    ensures
        split(s, sep).len() >= 1,
        forall|k: int|
            0 <= k < split(s, sep).len() ==> !(#[trigger] split(s, sep)[k]).contains(sep),
        join(split(s, sep), sep) == s,
    decreases s.len(),
{
    lemma_first_index(s, sep);
    let i = first_index(s, sep);
    if 0 <= i < s.len() {
        let rest = s.skip(i + 1);
        lemma_split_join(rest, sep);
        let tail = split(rest, sep);
        let all = split(s, sep);
        assert(all == seq![s.take(i)] + tail);
        assert(all.drop_first() =~= tail);
        assert(all[0] == s.take(i));
        assert(!s.take(i).contains(sep));
        assert forall|k: int| 0 <= k < all.len() implies !(#[trigger] all[k]).contains(sep) by {
            if k > 0 {
                assert(all[k] == tail[k - 1]);
            }
        }
        assert(s.take(i) + seq![sep] + rest =~= s);
    } else {
        assert(split(s, sep) == seq![s]);
        assert(!s.contains(sep));
    }
}

/// The pieces of `s` between occurrences of `sep`.
pub fn split_on(s: &str, sep: char) -> (parts: Vec<String>)
    ensures
        texts(parts@) == split(s@, sep),
{
    let x = chars_of(s);
    let mut parts: Vec<String> = Vec::new();
    let mut start: usize = 0;
    let mut i: usize = 0;
    proof {
        assert(s@.skip(0) =~= s@);
        assert(texts(parts@) + split(s@, sep) =~= split(s@, sep));
    }
    while i < x.len()
        invariant
            x@ == s@,
            0 <= start <= i <= x.len(),
            forall|k: int| start <= k < i ==> x@[k] != sep,
            split(s@, sep) == texts(parts@) + split(s@.skip(start as int), sep),
        decreases x.len() - i,
    {
        if x[i] == sep {
            let piece = text_of(&x, start, i);
            proof {
                let rest = s@.skip(start as int);
                lemma_first_index_is(rest, sep, i - start);
                assert(rest.take(i - start) =~= s@.subrange(start as int, i as int));
                assert(rest.skip(i - start + 1) =~= s@.skip(i + 1));
                assert(texts(parts@.push(piece)) =~= texts(parts@) + seq![piece@]);
            }
            parts.push(piece);
            start = i + 1;
        }
        i += 1;
    }
    let piece = text_of(&x, start, x.len());
    proof {
        let rest = s@.skip(start as int);
        lemma_first_index_is(rest, sep, rest.len() as int);
        assert(rest =~= s@.subrange(start as int, x.len() as int));
        assert(texts(parts@.push(piece)) =~= texts(parts@) + seq![piece@]);
    }
    parts.push(piece);
    parts
}

/// Whether `c` is one of the ten decimal digits.
pub open spec fn is_digit(c: char) -> bool {
    '0' <= c <= '9'
}

/// The number that a decimal digit stands for.
pub open spec fn digit_value(c: char) -> nat {
    (c as u32 - '0' as u32) as nat
}

/// Whether `s` is made of decimal digits only.
pub open spec fn all_digits(s: Seq<char>) -> bool {
    forall|i: int| 0 <= i < s.len() ==> is_digit(#[trigger] s[i])
}

/// The number written by the digits of `s`, most significant first.
pub open spec fn digits_value(s: Seq<char>) -> nat
    decreases s.len(),
{
    if s.len() == 0 {
        0
    } else {
        digits_value(s.drop_last()) * 10 + digit_value(s.last())
    }
}

/// The digits of a decimal numeral: the text without its optional leading
/// plus sign.
pub open spec fn numeral_digits(s: Seq<char>) -> Seq<char> {
    if s.len() > 0 && s[0] == '+' {
        s.skip(1)
    } else {
        s
    }
}

/// The value of the unsigned decimal numeral `s`: an optional `+`, then one
/// or more decimal digits whose value fits in 64 bits. Anything else is no
/// numeral.
pub open spec fn decimal_value(s: Seq<char>) -> Option<u64> {
    let digits = numeral_digits(s);
    if digits.len() > 0 && all_digits(digits) && digits_value(digits) <= u64::MAX {
        Some(digits_value(digits) as u64)
    } else {
        None
    }
}

/// A numeral is worth at least as much as any of its prefixes.
pub proof fn lemma_digits_value_grows(s: Seq<char>, n: int)
    requires
        0 <= n <= s.len(),
    ensures
        digits_value(s.take(n)) <= digits_value(s),
    decreases s.len(),
{
    if n < s.len() {
        lemma_digits_value_grows(s.drop_last(), n);
        assert(s.drop_last().take(n) =~= s.take(n));
    } else {
        assert(s.take(n) =~= s);
    }
}

/// Reads an unsigned decimal numeral.
pub fn parse_decimal(s: &str) -> (r: Option<u64>)
    ensures
        r == decimal_value(s@),
{
    let x = chars_of(s);
    let first: usize = if x.len() > 0 && x[0] == '+' { 1 } else { 0 };
    if first >= x.len() {
        return None;
    }
    let ghost digits = numeral_digits(s@);
    assert(digits =~= x@.skip(first as int));
    let mut value: u64 = 0;
    let mut i: usize = first;
    while i < x.len()
        invariant
            x@ == s@,
            first <= i <= x.len(),
            first < x.len(),
            digits == x@.skip(first as int),
            digits == numeral_digits(s@),
            all_digits(digits.take(i - first)),
            value == digits_value(digits.take(i - first)),
        decreases x.len() - i,
    {
        let c = x[i];
        let ghost upto = digits.take(i - first + 1);
        proof {
            assert(upto.drop_last() =~= digits.take(i - first));
            assert(upto.last() == c);
        }
        if c < '0' || c > '9' {
            assert(!is_digit(digits[i - first]));
            return None;
        }
        let d: u64 = (c as u32 - '0' as u32) as u64;
        if value > (u64::MAX - d) / 10 {
            proof {
                assert(digits_value(upto) == value * 10 + d);
                lemma_digits_value_grows(digits, i - first + 1);
            }
            return None;
        }
        value = value * 10 + d;
        proof {
            assert forall|k: int| 0 <= k < upto.len() implies is_digit(#[trigger] upto[k]) by {
                if k < i - first {
                    assert(upto[k] == digits.take(i - first)[k]);
                }
            }
        }
        i += 1;
    }
    assert(digits.take(x.len() - first) =~= digits);
    Some(value)
}

/// The dictionary order of texts by character code: a text comes no later
/// than `b` when it is a prefix of `b` or holds the smaller character at the
/// first place where the two differ.
pub open spec fn text_le(a: Seq<char>, b: Seq<char>) -> bool
    decreases a.len(),
{
    if a.len() == 0 {
        true
    } else if b.len() == 0 {
        false
    } else if a[0] != b[0] {
        a[0] < b[0]
    } else {
        text_le(a.drop_first(), b.drop_first())
    }
}

/// Every text comes no later than itself.
pub proof fn lemma_text_le_reflexive(a: Seq<char>)
    ensures
        text_le(a, a),
    decreases a.len(),
{
    if a.len() > 0 {
        lemma_text_le_reflexive(a.drop_first());
    }
}

/// Of two texts, one comes no later than the other.
pub proof fn lemma_text_le_total(a: Seq<char>, b: Seq<char>)
    ensures
        text_le(a, b) || text_le(b, a),
    decreases a.len(),
{
    if a.len() > 0 && b.len() > 0 && a[0] == b[0] {
        lemma_text_le_total(a.drop_first(), b.drop_first());
    }
}

/// Two texts that each come no later than the other are the same text.
pub proof fn lemma_text_le_antisymmetric(a: Seq<char>, b: Seq<char>)
    requires
        text_le(a, b),
        text_le(b, a),
    ensures
        a == b,
    decreases a.len(),
{
    if a.len() > 0 && b.len() > 0 {
        lemma_text_le_antisymmetric(a.drop_first(), b.drop_first());
        assert(a =~= seq![a[0]] + a.drop_first());
        assert(b =~= seq![b[0]] + b.drop_first());
    } else {
        assert(a =~= b);
    }
}

/// The dictionary order is transitive.
pub proof fn lemma_text_le_transitive(a: Seq<char>, b: Seq<char>, c: Seq<char>)
    requires
        text_le(a, b),
        text_le(b, c),
    ensures
        text_le(a, c),
    decreases a.len(),
{
    if a.len() > 0 && b.len() > 0 && c.len() > 0 && a[0] == b[0] && b[0] == c[0] {
        lemma_text_le_transitive(a.drop_first(), b.drop_first(), c.drop_first());
    }
}

/// Whether `a` comes no later than `b` in dictionary order.
pub fn text_precedes(a: &str, b: &str) -> (r: bool)
    ensures
        r == text_le(a@, b@),
{
    let mut left = a.chars();
    let mut right = b.chars();
    loop
        invariant
            left.decrease() is Some,
            text_le(a@, b@) == text_le(left.remaining(), right.remaining()),
        decreases left.decrease()->0,
    {
        let x = left.next();
        let y = right.next();
        match (x, y) {
            (None, _) => {
                return true;
            },
            (Some(_), None) => {
                return false;
            },
            (Some(p), Some(q)) => {
                if p != q {
                    return p < q;
                }
            },
        }
    }
}

/// Whether a path starts at the root.
pub open spec fn is_absolute(path: Seq<char>) -> bool {
    path.len() > 0 && path[0] == '/'
}

/// The path of `name` seen from the directory `dir`. An absolute `name`
/// stands for itself; otherwise one separator stands between the two unless
/// `dir` is empty or already ends in one.
pub open spec fn join_path(dir: Seq<char>, name: Seq<char>) -> Seq<char> {
    if is_absolute(name) {
        name
    } else if dir.len() == 0 || dir.last() == '/' {
        dir + name
    } else {
        dir + seq!['/'] + name
    }
}

/// Appends `name` to the directory path `dir`.
pub fn path_join(dir: &str, name: &str) -> (r: String)
    ensures
        r@ == join_path(dir@, name@),
{
    proof {
        reveal_strlit("/");
    }
    if starts_with(name, "/") {
        assert(name@.subrange(0, 1)[0] == '/');
        String::from_str(name)
    } else {
        assert(is_absolute(name@) ==> name@.subrange(0, 1) =~= "/"@);
        if same_text(dir, "") || ends_with(dir, "/") {
            proof {
                reveal_strlit("");
                if dir@.len() > 0 {
                    assert(dir@.subrange(dir@.len() - 1, dir@.len() as int)[0] == '/');
                }
            }
            append(dir, name)
        } else {
            proof {
                reveal_strlit("");
                assert(dir@.len() == 0 ==> dir@ =~= ""@);
                assert(dir@.last() == '/' ==> dir@.subrange(dir@.len() - 1, dir@.len() as int)
                    =~= "/"@);
                assert("/"@ =~= seq!['/']);
            }
            let with_sep = append(dir, "/");
            append(with_sep.as_str(), name)
        }
    }
}

/// `path` as seen under the heading `root`: the text of `root`, a colon and
/// the path.
pub open spec fn qualified(root: Seq<char>, path: Seq<char>) -> Seq<char> {
    root + seq![':'] + path
}

/// Splitting after the last separator: the pieces of what stands before
/// it, then what stands after it.
pub proof fn lemma_split_at_last(s: Seq<char>, sep: char, k: int)
    requires
        0 <= k < s.len(),
        s[k] == sep,
        forall|j: int| k < j < s.len() ==> s[j] != sep,
    ensures
        split(s, sep) == split(s.take(k), sep) + seq![s.skip(k + 1)],
    decreases s.len(),
{
    lemma_first_index(s, sep);
    let i = first_index(s, sep);
    assert(i <= k) by {
        if i > k {
            assert(s[k] != sep);
        }
    }
    let after = s.skip(i + 1);
    assert(split(s, sep) == seq![s.take(i)] + split(after, sep));
    if i == k {
        lemma_first_index_is(after, sep, after.len() as int);
        assert(split(after, sep) == seq![after]);
        lemma_first_index_is(s.take(k), sep, k);
        assert(split(s.take(k), sep) == seq![s.take(k)]);
    } else {
        let inner = after.take(k - i - 1);
        lemma_split_at_last(after, sep, k - i - 1);
        assert(after.skip(k - i) =~= s.skip(k + 1));
        assert(split(after, sep) == split(inner, sep) + seq![s.skip(k + 1)]);
        lemma_first_index_is(s.take(k), sep, i);
        assert(s.take(k).take(i) =~= s.take(i));
        assert(s.take(k).skip(i + 1) =~= inner);
        assert(split(s.take(k), sep) == seq![s.take(i)] + split(inner, sep));
        assert(seq![s.take(i)] + (split(inner, sep) + seq![s.skip(k + 1)]) =~= (seq![s.take(i)]
            + split(inner, sep)) + seq![s.skip(k + 1)]);
    }
}

/// Whether a piece of a path names something: it is neither empty nor the
/// single dot that stands for "here".
pub open spec fn is_name(piece: Seq<char>) -> bool {
    piece.len() > 0 && piece != seq!['.']
}

/// The components of a path: its pieces between slashes, without the empty
/// ones and the single dots.
pub open spec fn components(path: Seq<char>) -> Seq<Seq<char>> {
    split(path, '/').filter(|piece: Seq<char>| is_name(piece))
}

/// The final component of a path, where it has one that is not `..`.
pub open spec fn base_name(path: Seq<char>) -> Option<Seq<char>> {
    let parts = components(path);
    if parts.len() == 0 || parts.last() == seq!['.', '.'] {
        None
    } else {
        Some(parts.last())
    }
}

/// The components of a path whose last piece is `piece`.
proof fn lemma_components_step(s: Seq<char>, k: int)
    requires
        0 <= k < s.len(),
        s[k] == '/',
        forall|j: int| k < j < s.len() ==> s[j] != '/',
    ensures
        components(s) == if is_name(s.skip(k + 1)) {
            components(s.take(k)).push(s.skip(k + 1))
        } else {
            components(s.take(k))
        },
{
    let pred = |piece: Seq<char>| is_name(piece);
    let last = s.skip(k + 1);
    lemma_split_at_last(s, '/', k);
    Seq::filter_distributes_over_add(split(s.take(k), '/'), seq![last], pred);
    reveal_with_fuel(Seq::filter, 2);
    assert(seq![last].drop_last() =~= Seq::<Seq<char>>::empty());
    if is_name(last) {
        assert(seq![last].filter(pred) =~= seq![last]);
        assert(components(s.take(k)) + seq![last] =~= components(s.take(k)).push(last));
    } else {
        assert(seq![last].filter(pred) =~= Seq::<Seq<char>>::empty());
        assert(components(s.take(k)) + Seq::<Seq<char>>::empty() =~= components(s.take(k)));
    }
}

/// The components of a path without any slash.
proof fn lemma_components_single(s: Seq<char>)
    requires
        forall|j: int| 0 <= j < s.len() ==> s[j] != '/',
    ensures
        components(s) == if is_name(s) {
            seq![s]
        } else {
            Seq::<Seq<char>>::empty()
        },
{
    let pred = |piece: Seq<char>| is_name(piece);
    lemma_first_index_is(s, '/', s.len() as int);
    assert(split(s, '/') == seq![s]);
    reveal_with_fuel(Seq::filter, 2);
    assert(seq![s].drop_last() =~= Seq::<Seq<char>>::empty());
    if is_name(s) {
        assert(seq![s].filter(pred) =~= seq![s]);
    } else {
        assert(seq![s].filter(pred) =~= Seq::<Seq<char>>::empty());
    }
}

/// The final component of a path, where it has one, names something, is not
/// `..` and holds no slash.
pub proof fn lemma_base_name_is_simple(path: Seq<char>)
    requires
        base_name(path) is Some,
    ensures
        is_name(base_name(path)->0),
        base_name(path)->0 != seq!['.', '.'],
        !base_name(path)->0.contains('/'),
{
    let pieces = split(path, '/');
    let pred = |piece: Seq<char>| is_name(piece);
    let parts = pieces.filter(pred);
    let name = parts.last();
    pieces.lemma_filter_pred(pred, parts.len() - 1);
    lemma_split_join(path, '/');
    assert(parts.contains(name));
    assert(pieces.contains(name)) by {
        if !pieces.contains(name) {
            pieces.lemma_filter_contains_rev(pred, name);
        }
    }
    let k = choose|k: int| 0 <= k < pieces.len() && pieces[k] == name;
    assert(!pieces[k].contains('/'));
}

/// A simple name is the final component of its path within any directory.
pub proof fn lemma_base_name_of_join(dir: Seq<char>, name: Seq<char>)
    requires
        is_name(name),
        name != seq!['.', '.'],
        !name.contains('/'),
    ensures
        base_name(join_path(dir, name)) == Some(name),
{
    assert(!is_absolute(name)) by {
        if is_absolute(name) {
            assert(name[0] == '/');
        }
    }
    let path = join_path(dir, name);
    if dir.len() == 0 {
        assert(path =~= name);
        lemma_components_single(name);
    } else {
        let k: int = if dir.last() == '/' {
            dir.len() - 1
        } else {
            dir.len() as int
        };
        assert(path[k] == '/');
        assert(path.skip(k + 1) =~= name);
        assert forall|j: int| k < j < path.len() implies path[j] != '/' by {
            assert(path[j] == name[j - k - 1]);
        }
        lemma_components_step(path, k);
    }
}

/// The final component of `path`: the name of the file or directory that
/// the path leads to.
pub fn file_name_of(path: &str) -> (r: Option<String>)
    ensures
        match (r, base_name(path@)) {
            (Some(name), Some(expected)) => name@ == expected,
            (None, None) => true,
            _ => false,
        },
{
    let x = chars_of(path);
    let mut end: usize = x.len();
    assert(path@.take(end as int) =~= path@);
    loop
        invariant
            x@ == path@,
            0 <= end <= x.len(),
            components(path@) == components(path@.take(end as int)),
        decreases end,
    {
        let ghost head = path@.take(end as int);
        let mut start: usize = end;
        while start > 0 && x[start - 1] != '/'
            invariant
                x@ == path@,
                0 <= start <= end <= x.len(),
                forall|j: int| start <= j < end ==> x@[j] != '/',
            decreases start,
        {
            start -= 1;
        }
        let ghost piece = path@.subrange(start as int, end as int);
        proof {
            if start > 0 {
                lemma_components_step(head, start - 1);
                assert(head.skip(start as int) =~= piece);
                assert(head.take(start - 1) =~= path@.take(start - 1));
            } else {
                lemma_components_single(head);
                assert(head =~= piece);
            }
        }
        let is_dot = end - start == 1 && x[start] == '.';
        let is_dots = end - start == 2 && x[start] == '.' && x[start + 1] == '.';
        proof {
            assert(piece.len() == end - start);
            if end - start >= 1 {
                assert(piece[0] == x@[start as int]);
            }
            if end - start >= 2 {
                assert(piece[1] == x@[start + 1]);
            }
            assert(is_dot <==> piece =~= seq!['.']);
            assert(is_dots <==> piece =~= seq!['.', '.']);
        }
        if end > start && !is_dot {
            assert(components(path@).last() == piece);
            if is_dots {
                return None;
            }
            return Some(text_of(&x, start, end));
        }
        if start == 0 {
            return None;
        }
        end = start - 1;
    }
}

/// A line without the carriage return that may end it.
pub open spec fn without_return(line: Seq<char>) -> Seq<char> {
    if line.len() > 0 && line.last() == '\r' {
        line.drop_last()
    } else {
        line
    }
}

/// The lines of a text. A line ends at a line feed, and a carriage return
/// just before that line feed belongs to the line ending. The last line
/// needs no line ending, and an empty text has no line.
pub open spec fn lines(s: Seq<char>) -> Seq<Seq<char>>
    decreases s.len(),
{
    let i = first_index(s, '\n');
    if s.len() == 0 {
        Seq::empty()
    } else if 0 <= i < s.len() {
        seq![without_return(s.take(i))] + lines(s.skip(i + 1))
    } else {
        seq![s]
    }
}

/// The lines of a text, without their line endings.
pub fn split_lines(s: &str) -> (out: Vec<String>)
    ensures
        texts(out@) == lines(s@),
{
    let x = chars_of(s);
    let mut out: Vec<String> = Vec::new();
    let mut start: usize = 0;
    let mut i: usize = 0;
    proof {
        assert(s@.skip(0) =~= s@);
        assert(texts(out@) + lines(s@) =~= lines(s@));
    }
    while i < x.len()
        invariant
            x@ == s@,
            0 <= start <= i <= x.len(),
            forall|k: int| start <= k < i ==> x@[k] != '\n',
            lines(s@) == texts(out@) + lines(s@.skip(start as int)),
        decreases x.len() - i,
    {
        if x[i] == '\n' {
            let stop: usize = if i > start && x[i - 1] == '\r' { (i - 1) as usize } else { i };
            let line = text_of(&x, start, stop);
            proof {
                let rest = s@.skip(start as int);
                lemma_first_index_is(rest, '\n', i - start);
                assert(rest.take(i - start) =~= s@.subrange(start as int, i as int));
                assert(without_return(rest.take(i - start)) =~= line@);
                assert(rest.skip(i - start + 1) =~= s@.skip(i + 1));
                assert(texts(out@.push(line)) =~= texts(out@) + seq![line@]);
            }
            out.push(line);
            start = i + 1;
        }
        i += 1;
    }
    if start < x.len() {
        let line = text_of(&x, start, x.len());
        proof {
            let rest = s@.skip(start as int);
            lemma_first_index_is(rest, '\n', rest.len() as int);
            assert(rest =~= s@.subrange(start as int, x.len() as int));
            assert(texts(out@.push(line)) =~= texts(out@) + seq![line@]);
        }
        out.push(line);
    } else {
        assert(s@.skip(start as int).len() == 0);
        assert(texts(out@) + Seq::<Seq<char>>::empty() =~= texts(out@));
    }
    out
}

} // verus!
