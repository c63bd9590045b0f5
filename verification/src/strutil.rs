//! Verified utilities over strings and character sequences: equality,
//! search, splitting, joining and trimming, all specified over `Seq<char>`.

use vstd::prelude::*;
use vstd::string::StrSliceExecFns;
use vstd::string::StringExecFns;

verus! {

/// Relies on `String::push`: appends one character to the string.
#[verifier::external_body]
pub fn push_char(s: &mut String, c: char)
    ensures
        final(s)@ == old(s)@.push(c),
{
    s.push(c)
}

/// A fresh empty string.
pub fn new_string() -> (r: String)
    ensures
        r@ == Seq::<char>::empty(),
{
    let r = String::new();
    proof {
        assert(r@ =~= Seq::<char>::empty());
    }
    r
}

/// Character-wise equality of two string slices.
pub fn str_eq(a: &str, b: &str) -> (r: bool)
    ensures
        r == (a@ == b@),
{
    let alen = a.unicode_len();
    let blen = b.unicode_len();
    if alen != blen {
        return false;
    }
    let mut i: usize = 0;
    while i < alen
        invariant
            i <= alen,
            alen == a@.len(),
            alen == b@.len(),
            forall|j: int| 0 <= j < i ==> a@[j] == b@[j],
        decreases alen - i,
    {
        if a.get_char(i) != b.get_char(i) {
            return false;
        }
        i += 1;
    }
    proof {
        assert(a@ =~= b@);
    }
    true
}

/// Equality of an owned string against a string slice.
pub fn string_eq_str(a: &String, b: &str) -> (r: bool)
    ensures
        r == (a@ == b@),
{
    str_eq(a.as_str(), b)
}

/// Appends every character of `piece` to `out`.
pub fn append_str(out: &mut String, piece: &str)
    ensures
        final(out)@ == old(out)@ + piece@,
{
    out.append(piece);
}

/// Appends every character of an owned string to `out`.
pub fn append_string(out: &mut String, piece: &String)
    ensures
        final(out)@ == old(out)@ + piece@,
{
    out.append(piece.as_str());
}

/// Copies a string slice into an owned string.
pub fn to_owned_string(s: &str) -> (r: String)
    ensures
        r@ == s@,
{
    let mut r = new_string();
    append_str(&mut r, s);
    proof {
        assert(r@ =~= s@);
    }
    r
}

/// Whether `hay` holds `needle` as a contiguous run starting at `at`.
pub open spec fn matches_at(hay: Seq<char>, needle: Seq<char>, at: int) -> bool {
    &&& 0 <= at
    &&& at + needle.len() <= hay.len()
    &&& hay.subrange(at, at + needle.len() as int) == needle
}

/// Whether `needle` occurs anywhere in `hay`.
pub open spec fn contains_seq(hay: Seq<char>, needle: Seq<char>) -> bool {
    exists|at: int| matches_at(hay, needle, at)
}

/// Whether `s` begins with `prefix`.
pub open spec fn starts_with_seq(s: Seq<char>, prefix: Seq<char>) -> bool {
    matches_at(s, prefix, 0)
}

/// Tests whether `needle` occurs in `hay` starting exactly at `at`.
pub fn check_match_at(hay: &str, needle: &str, at: usize) -> (r: bool)
    requires
        at + needle@.len() <= hay@.len(),
    ensures
        r == matches_at(hay@, needle@, at as int),
{
    let hlen = hay.unicode_len();
    let nlen = needle.unicode_len();
    let mut i: usize = 0;
    while i < nlen
        invariant
            i <= nlen,
            hlen == hay@.len(),
            nlen == needle@.len(),
            at + nlen <= hlen,
            forall|j: int| 0 <= j < i ==> hay@[at + j] == needle@[j],
        decreases nlen - i,
    {
        if hay.get_char(at + i) != needle.get_char(i) {
            proof {
                assert(hay@.subrange(at as int, at + needle@.len() as int)[i as int]
                    != needle@[i as int]);
            }
            return false;
        }
        i += 1;
    }
    proof {
        assert(hay@.subrange(at as int, at + needle@.len() as int) =~= needle@);
    }
    true
}

/// Whether `s` begins with `prefix`, executably.
pub fn starts_with(s: &str, prefix: &str) -> (r: bool)
    ensures
        r == starts_with_seq(s@, prefix@),
{
    let plen = prefix.unicode_len();
    if plen > s.unicode_len() {
        return false;
    }
    check_match_at(s, prefix, 0)
}

/// Whether `needle` occurs anywhere in `hay`, executably.
pub fn contains(hay: &str, needle: &str) -> (r: bool)
    ensures
        r == contains_seq(hay@, needle@),
{
    let hlen = hay.unicode_len();
    let nlen = needle.unicode_len();
    if nlen > hlen {
        return false;
    }
    if nlen == 0 {
        proof {
            assert(hay@.subrange(0, 0) =~= needle@);
            assert(matches_at(hay@, needle@, 0));
        }
        return true;
    }
    let mut at: usize = 0;
    while at <= hlen - nlen
        invariant
            0 < nlen <= hlen,
            hlen == hay@.len(),
            nlen == needle@.len(),
            at <= hlen - nlen + 1,
            forall|k: int| 0 <= k < at ==> !matches_at(hay@, needle@, k),
        decreases hlen - at,
    {
        if check_match_at(hay, needle, at) {
            return true;
        }
        at += 1;
    }
    proof {
        assert forall|k: int| !matches_at(hay@, needle@, k) by {
            if 0 <= k && k + needle@.len() <= hay@.len() {
                assert(k < at);
            }
        }
    }
    false
}



/// Whether `c` has the Unicode white-space property, as `char::is_whitespace`
/// defines it.
pub open spec fn is_space_char(c: char) -> bool {
    let u = c as u32;
    ||| u == 0x20
    ||| u == 0x09
    ||| u == 0x0a
    ||| u == 0x0b
    ||| u == 0x0c
    ||| u == 0x0d
    ||| u == 0x85
    ||| u == 0xa0
    ||| u == 0x1680
    ||| (0x2000 <= u && u <= 0x200a)
    ||| u == 0x2028
    ||| u == 0x2029
    ||| u == 0x202f
    ||| u == 0x205f
    ||| u == 0x3000
}

/// Whether `c` is white space, executably.
pub fn space_char(c: char) -> (r: bool)
    ensures
        r == is_space_char(c),
{
    let u = c as u32;
    u == 0x20 || u == 0x09 || u == 0x0a || u == 0x0b || u == 0x0c || u == 0x0d || u == 0x85
        || u == 0xa0 || u == 0x1680 || (0x2000 <= u && u <= 0x200a) || u == 0x2028 || u == 0x2029
        || u == 0x202f || u == 0x205f || u == 0x3000
}

/// Whether `s` holds only white space (so a trimmed copy would be empty).
pub open spec fn is_blank(s: Seq<char>) -> bool {
    forall|i: int| 0 <= i < s.len() ==> is_space_char(s[i])
}

/// Whether `s` is blank, executably.
pub fn blank(s: &str) -> (r: bool)
    ensures
        r == is_blank(s@),
{
    let len = s.unicode_len();
    let mut i: usize = 0;
    while i < len
        invariant
            i <= len,
            len == s@.len(),
            forall|j: int| 0 <= j < i ==> is_space_char(s@[j]),
        decreases len - i,
    {
        if !space_char(s.get_char(i)) {
            return false;
        }
        i += 1;
    }
    true
}

/// `s` without trailing white space.
pub open spec fn trim_end_spec(s: Seq<char>) -> Seq<char>
    decreases s.len(),
{
    if s.len() > 0 && is_space_char(s.last()) {
        trim_end_spec(s.drop_last())
    } else {
        s
    }
}

/// `s` without leading white space.
pub open spec fn trim_start_spec(s: Seq<char>) -> Seq<char>
    decreases s.len(),
{
    if s.len() > 0 && is_space_char(s.first()) {
        trim_start_spec(s.drop_first())
    } else {
        s
    }
}

/// `s` without leading or trailing white space.
pub open spec fn trim_spec(s: Seq<char>) -> Seq<char> {
    trim_start_spec(trim_end_spec(s))
}

/// A copy of `s` without trailing white space.
pub fn trim_end(s: &str) -> (r: String)
    ensures
        r@ == trim_end_spec(s@),
{
    let len = s.unicode_len();
    let mut k = len;
    proof {
        assert(s@.take(len as int) =~= s@);
    }
    while k > 0 && space_char(s.get_char(k - 1))
        invariant
            k <= len,
            len == s@.len(),
            trim_end_spec(s@) == trim_end_spec(s@.take(k as int)),
        decreases k,
    {
        proof {
            assert(s@.take(k as int).drop_last() =~= s@.take(k - 1));
        }
        k -= 1;
    }
    proof {
        assert(trim_end_spec(s@.take(k as int)) == s@.take(k as int));
    }
    let piece = s.substring_char(0, k);
    proof {
        assert(s@.subrange(0, k as int) =~= s@.take(k as int));
    }
    to_owned_string(piece)
}

/// A copy of `s` without leading or trailing white space.
pub fn trim(s: &str) -> (r: String)
    ensures
        r@ == trim_spec(s@),
{
    let e = trim_end(s);
    let elen = e.as_str().unicode_len();
    let mut i: usize = 0;
    proof {
        assert(e@.skip(0) =~= e@);
    }
    while i < elen && space_char(e.as_str().get_char(i))
        invariant
            i <= elen,
            elen == e@.len(),
            trim_start_spec(e@) == trim_start_spec(e@.skip(i as int)),
        decreases elen - i,
    {
        proof {
            assert(e@.skip(i as int).drop_first() =~= e@.skip(i + 1));
        }
        i += 1;
    }
    proof {
        assert(trim_start_spec(e@.skip(i as int)) == e@.skip(i as int));
    }
    let piece = e.as_str().substring_char(i, elen);
    proof {
        assert(e@.subrange(i as int, elen as int) =~= e@.skip(i as int));
    }
    to_owned_string(piece)
}

/// The parts of `s` between occurrences of `sep`; always at least one part.
pub open spec fn split_char_spec(s: Seq<char>, sep: char) -> Seq<Seq<char>>
    decreases s.len(),
{
    if s.len() == 0 {
        seq![Seq::<char>::empty()]
    } else if s[0] == sep {
        seq![Seq::<char>::empty()] + split_char_spec(s.drop_first(), sep)
    } else {
        let rest = split_char_spec(s.drop_first(), sep);
        seq![seq![s[0]] + rest[0]] + rest.drop_first()
    }
}

/// Splitting always yields at least one part.
pub proof fn lemma_split_char_len(s: Seq<char>, sep: char)
    ensures
        split_char_spec(s, sep).len() >= 1,
    decreases s.len(),
{
    if s.len() > 0 {
        lemma_split_char_len(s.drop_first(), sep);
    }
}

/// The deep views of a vector of strings.
pub open spec fn views_of(ss: Seq<String>) -> Seq<Seq<char>> {
    ss.map(|i: int, s: String| s@)
}

/// `ss` with `pre` prepended to its first element (`ss` must be non-empty).
pub open spec fn prepend_first(pre: Seq<char>, ss: Seq<Seq<char>>) -> Seq<Seq<char>> {
    seq![pre + ss[0]] + ss.drop_first()
}

/// Splits `s` at every occurrence of `sep`, as `str::split` does for a
/// single-character pattern.
pub fn split_char(s: &str, sep: char) -> (r: Vec<String>)
    ensures
        views_of(r@) == split_char_spec(s@, sep),
        r@.len() >= 1,
{
    let len = s.unicode_len();
    let mut out: Vec<String> = Vec::new();
    let mut cur: String = new_string();
    let mut i: usize = 0;
    proof {
        assert(prepend_first(cur@, split_char_spec(s@.skip(0), sep)) =~= split_char_spec(
            s@.skip(0),
            sep,
        )) by {
            lemma_split_char_len(s@.skip(0), sep);
            assert(cur@ + split_char_spec(s@.skip(0), sep)[0] =~= split_char_spec(
                s@.skip(0),
                sep,
            )[0]);
        }
        assert(s@.skip(0) =~= s@);
    }
    while i < len
        invariant
            i <= len,
            len == s@.len(),
            split_char_spec(s@, sep) =~= views_of(out@) + prepend_first(
                cur@,
                split_char_spec(s@.skip(i as int), sep),
            ),
        decreases len - i,
    {
        let ghost pre = split_char_spec(s@.skip(i as int), sep);
        proof {
            lemma_split_char_len(s@.skip(i as int), sep);
            lemma_split_char_len(s@.skip(i + 1), sep);
            assert(s@.skip(i as int)[0] == s@[i as int]);
            assert(s@.skip(i as int).drop_first() =~= s@.skip(i + 1));
        }
        let c = s.get_char(i);
        if c == sep {
            let done = cur;
            cur = new_string();
            out.push(done);
            proof {
                let post = split_char_spec(s@.skip(i + 1), sep);
                assert(pre =~= seq![Seq::<char>::empty()] + post);
                assert(views_of(out@) =~= views_of(out@.drop_last()) + seq![out@.last()@]);
                assert(prepend_first(cur@, post)[0] =~= post[0]);
                assert(prepend_first(done@, pre) =~= seq![done@] + post);
                assert(views_of(out@) + prepend_first(cur@, post) =~= views_of(out@.drop_last())
                    + prepend_first(done@, pre));
            }
        } else {
            let ghost curg = cur@;
            push_char(&mut cur, c);
            proof {
                let post = split_char_spec(s@.skip(i + 1), sep);
                assert(pre =~= seq![seq![s@[i as int]] + post[0]] + post.drop_first());
                assert(cur@ + post[0] =~= curg + pre[0]);
                assert(prepend_first(cur@, post) =~= prepend_first(curg, pre));
            }
        }
        i += 1;
    }
    proof {
        assert(s@.skip(len as int) =~= Seq::<char>::empty());
        assert(split_char_spec(Seq::<char>::empty(), sep) =~= seq![Seq::<char>::empty()]);
        assert(prepend_first(cur@, seq![Seq::<char>::empty()]) =~= seq![cur@]);
    }
    out.push(cur);
    proof {
        assert(views_of(out@) =~= views_of(out@.drop_last()) + seq![out@.last()@]);
        assert(views_of(out@) =~= split_char_spec(s@, sep));
    }
    out
}

/// A string without the separator splits into itself alone.
pub proof fn lemma_split_no_sep(a: Seq<char>, sep: char)
    requires
        forall|i: int| 0 <= i < a.len() ==> a[i] != sep,
    ensures
        split_char_spec(a, sep) == seq![a],
    decreases a.len(),
{
    if a.len() == 0 {
        assert(a =~= Seq::<char>::empty());
        assert(split_char_spec(a, sep) =~= seq![a]);
    } else {
        lemma_split_no_sep(a.drop_first(), sep);
        let rest = split_char_spec(a.drop_first(), sep);
        assert(rest.drop_first() =~= Seq::<Seq<char>>::empty());
        assert(seq![a[0]] + rest[0] =~= a);
        assert(split_char_spec(a, sep) =~= seq![a]);
    }
}

/// Splitting a separator-free prefix off: the prefix becomes the first part.
pub proof fn lemma_split_prefix(a: Seq<char>, b: Seq<char>, sep: char)
    requires
        forall|i: int| 0 <= i < a.len() ==> a[i] != sep,
    ensures
        split_char_spec(a + seq![sep] + b, sep) == seq![a] + split_char_spec(b, sep),
    decreases a.len(),
{
    let s = a + seq![sep] + b;
    if a.len() == 0 {
        assert(s[0] == sep);
        assert(s.drop_first() =~= b);
        assert(a =~= Seq::<char>::empty());
        assert(split_char_spec(s, sep) =~= seq![a] + split_char_spec(b, sep));
    } else {
        lemma_split_prefix(a.drop_first(), b, sep);
        assert(s[0] == a[0]);
        assert(s.drop_first() =~= a.drop_first() + seq![sep] + b);
        let rest = split_char_spec(s.drop_first(), sep);
        assert(rest == seq![a.drop_first()] + split_char_spec(b, sep));
        assert(rest[0] == a.drop_first());
        assert(seq![s[0]] + rest[0] =~= a);
        assert(rest.drop_first() =~= split_char_spec(b, sep));
        assert(split_char_spec(s, sep) =~= seq![a] + split_char_spec(b, sep));
    }
}

/// `l` without one trailing carriage return.
pub open spec fn strip_cr(l: Seq<char>) -> Seq<char> {
    if l.len() > 0 && l.last() == '\r' {
        l.drop_last()
    } else {
        l
    }
}

/// The lines of `s`, as `str::lines` yields them: split at `'\n'`, one
/// carriage return stripped before each split point, no final empty line
/// when `s` ends with a newline, none at all when `s` is empty.
pub open spec fn lines_spec(s: Seq<char>) -> Seq<Seq<char>> {
    if s.len() == 0 {
        Seq::<Seq<char>>::empty()
    } else if s.last() == '\n' {
        split_char_spec(s.drop_last(), '\n').map_values(|l: Seq<char>| strip_cr(l))
    } else {
        let parts = split_char_spec(s, '\n');
        parts.drop_last().map_values(|l: Seq<char>| strip_cr(l)).push(parts.last())
    }
}

/// `l` without one trailing carriage return, executably.
fn strip_cr_exec(l: &String) -> (r: String)
    ensures
        r@ == strip_cr(l@),
{
    let len = l.as_str().unicode_len();
    if len > 0 && l.as_str().get_char(len - 1) == '\r' {
        let piece = l.as_str().substring_char(0, len - 1);
        proof {
            assert(piece@ =~= l@.drop_last());
        }
        to_owned_string(piece)
    } else {
        to_owned_string(l.as_str())
    }
}

/// Splits `s` into its lines, as `str::lines` does.
pub fn split_lines(s: &str) -> (r: Vec<String>)
    ensures
        views_of(r@) == lines_spec(s@),
{
    let len = s.unicode_len();
    let mut out: Vec<String> = Vec::new();
    if len == 0 {
        proof {
            assert(views_of(out@) =~= lines_spec(s@));
        }
        return out;
    }
    let ends_nl = s.get_char(len - 1) == '\n';
    let body = if ends_nl {
        let b = s.substring_char(0, len - 1);
        proof {
            assert(b@ =~= s@.drop_last());
        }
        b
    } else {
        s
    };
    let parts = split_char(body, '\n');
    let ghost mapped = split_char_spec(body@, '\n').map_values(|l: Seq<char>| strip_cr(l));
    let n = parts.len();
    let mut i: usize = 0;
    proof {
        assert(views_of(parts@).len() == parts@.len());
        assert(views_of(out@) =~= mapped.take(0));
    }
    while i < n
        invariant
            i <= n,
            n == parts@.len(),
            n >= 1,
            views_of(parts@) == split_char_spec(body@, '\n'),
            mapped == split_char_spec(body@, '\n').map_values(|l: Seq<char>| strip_cr(l)),
            ends_nl || i < n ==> views_of(out@) =~= mapped.take(i as int),
            !(ends_nl || i < n) ==> views_of(out@) =~= mapped.take(n - 1).push(
                views_of(parts@).last(),
            ),
        decreases n - i,
    {
        proof {
            assert(parts@[i as int]@ == views_of(parts@)[i as int]);
            assert(mapped[i as int] == strip_cr(views_of(parts@)[i as int]));
        }
        let ghost before = out@;
        if ends_nl || i < n - 1 {
            let piece = strip_cr_exec(&parts[i]);
            out.push(piece);
            proof {
                assert(views_of(out@) =~= views_of(before).push(mapped[i as int]));
                assert(views_of(out@) =~= mapped.take(i + 1));
            }
        } else {
            let piece = to_owned_string(parts[i].as_str());
            out.push(piece);
            proof {
                assert(views_of(out@) =~= views_of(before).push(views_of(parts@).last()));
            }
        }
        i += 1;
    }
    proof {
        if ends_nl {
            assert(mapped.take(n as int) =~= mapped);
            assert(views_of(out@) =~= lines_spec(s@));
        } else {
            assert(split_char_spec(s@, '\n').drop_last().map_values(
                |l: Seq<char>| strip_cr(l),
            ) =~= mapped.take(n - 1));
            assert(views_of(out@) =~= lines_spec(s@));
        }
    }
    out
}

/// The parts joined with `sep` between consecutive parts.
pub open spec fn join_char_spec(parts: Seq<Seq<char>>, sep: char) -> Seq<char>
    decreases parts.len(),
{
    if parts.len() == 0 {
        Seq::<char>::empty()
    } else if parts.len() == 1 {
        parts[0]
    } else {
        parts[0] + seq![sep] + join_char_spec(parts.drop_first(), sep)
    }
}

/// Joining distributes over concatenation of non-empty part lists.
pub proof fn lemma_join_concat(a: Seq<Seq<char>>, b: Seq<Seq<char>>, sep: char)
    requires
        a.len() >= 1,
        b.len() >= 1,
    ensures
        join_char_spec(a + b, sep) =~= join_char_spec(a, sep) + seq![sep] + join_char_spec(b, sep),
    decreases a.len(),
{
    if a.len() == 1 {
        assert((a + b).drop_first() =~= b);
        assert((a + b)[0] == a[0]);
    } else {
        lemma_join_concat(a.drop_first(), b, sep);
        assert((a + b).drop_first() =~= a.drop_first() + b);
        assert((a + b)[0] == a[0]);
    }
}

/// Joins the parts with `sep`, as `[String]::join` does for a one-character
/// separator.
pub fn join_char(parts: &Vec<String>, sep: char) -> (r: String)
    ensures
        r@ == join_char_spec(views_of(parts@), sep),
{
    let mut out = new_string();
    if parts.len() == 0 {
        return out;
    }
    append_string(&mut out, &parts[0]);
    let mut i: usize = 1;
    proof {
        assert(views_of(parts@).take(1) =~= seq![parts@[0]@]);
    }
    while i < parts.len()
        invariant
            1 <= i <= parts@.len(),
            out@ == join_char_spec(views_of(parts@).take(i as int), sep),
        decreases parts@.len() - i,
    {
        push_char(&mut out, sep);
        append_string(&mut out, &parts[i]);
        proof {
            let vs = views_of(parts@);
            assert(vs.take(i + 1) =~= vs.take(i as int) + seq![vs[i as int]]);
            lemma_join_concat(vs.take(i as int), seq![vs[i as int]], sep);
        }
        i += 1;
    }
    proof {
        assert(views_of(parts@).take(parts@.len() as int) =~= views_of(parts@));
    }
    out
}

/// `s` with every occurrence of `pat` (leftmost first, non-overlapping)
/// replaced by `rep`; an empty pattern leaves `s` unchanged.
pub open spec fn replace_all_spec(s: Seq<char>, pat: Seq<char>, rep: Seq<char>) -> Seq<char>
    decreases s.len(),
{
    if pat.len() == 0 || s.len() < pat.len() {
        s
    } else if starts_with_seq(s, pat) {
        rep + replace_all_spec(s.skip(pat.len() as int), pat, rep)
    } else {
        seq![s[0]] + replace_all_spec(s.drop_first(), pat, rep)
    }
}

/// Replaces every occurrence of `pat` in `s` by `rep`, as `str::replace`
/// does, except that an empty pattern leaves `s` unchanged.
pub fn replace_all(s: &str, pat: &str, rep: &str) -> (r: String)
    ensures
        r@ == replace_all_spec(s@, pat@, rep@),
{
    let len = s.unicode_len();
    let plen = pat.unicode_len();
    let mut out = new_string();
    if plen == 0 {
        proof {
            assert(replace_all_spec(s@, pat@, rep@) == s@);
        }
        append_str(&mut out, s);
        proof {
            assert(out@ =~= s@);
        }
        return out;
    }
    let mut i: usize = 0;
    proof {
        assert(s@.skip(0) =~= s@);
        assert(out@ + replace_all_spec(s@, pat@, rep@) =~= replace_all_spec(s@, pat@, rep@));
    }
    while i < len
        invariant
            i <= len,
            len == s@.len(),
            plen == pat@.len(),
            plen > 0,
            replace_all_spec(s@, pat@, rep@) =~= out@ + replace_all_spec(
                s@.skip(i as int),
                pat@,
                rep@,
            ),
        decreases len - i,
    {
        let ghost tail = s@.skip(i as int);
        if plen <= len - i && check_match_at(s, pat, i) {
            proof {
                assert(tail.subrange(0, plen as int) =~= s@.subrange(i as int, i + plen));
                assert(starts_with_seq(tail, pat@));
                assert(tail.skip(plen as int) =~= s@.skip(i + plen));
            }
            append_str(&mut out, rep);
            i += plen;
        } else {
            proof {
                if tail.len() >= plen {
                    assert(!starts_with_seq(tail, pat@)) by {
                        if starts_with_seq(tail, pat@) {
                            assert(tail.subrange(0, plen as int) =~= s@.subrange(
                                i as int,
                                i + plen,
                            ));
                            assert(matches_at(s@, pat@, i as int));
                        }
                    }
                }
                assert(tail[0] == s@[i as int]);
                assert(tail.drop_first() =~= s@.skip(i + 1));
            }
            let c = s.get_char(i);
            push_char(&mut out, c);
            i += 1;
        }
    }
    proof {
        assert(s@.skip(len as int) =~= Seq::<char>::empty());
        assert(replace_all_spec(Seq::<char>::empty(), pat@, rep@)
            == Seq::<char>::empty());
        assert(out@ + Seq::<char>::empty() =~= out@);
    }
    out
}

/// `n` copies of `c` in a row.
pub open spec fn repeat_char_spec(c: char, n: int) -> Seq<char>
    decreases n,
{
    if n <= 0 {
        Seq::<char>::empty()
    } else {
        repeat_char_spec(c, n - 1).push(c)
    }
}

/// Appends `n` copies of `c` to `out`.
pub fn push_repeat(out: &mut String, c: char, n: usize)
    ensures
        final(out)@ == old(out)@ + repeat_char_spec(c, n as int),
{
    let mut i: usize = 0;
    proof {
        assert(old(out)@ + repeat_char_spec(c, 0) =~= old(out)@);
    }
    while i < n
        invariant
            i <= n,
            out@ == old(out)@ + repeat_char_spec(c, i as int),
        decreases n - i,
    {
        push_char(out, c);
        i += 1;
    }
}

} // verus!
