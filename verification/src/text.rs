//! Text: characters, order, splitting and joining, decimal numbers.
use vstd::prelude::*;
use vstd::utf8::*;

verus! {

broadcast use vstd::seq_lib::group_seq_properties;

/// `String::push` appends one character.
pub assume_specification[ String::push ](s: &mut String, c: char)
    ensures
        final(s)@ == old(s)@.push(c),
;

/// `==` on `str` compares the characters.
pub assume_specification[ <str as PartialEq<str>>::eq ](a: &str, b: &str) -> (r: bool)
    ensures
        r == (a@ == b@),
;

/// What `String::from_utf8_lossy` makes of bytes that are not UTF-8.
pub uninterp spec fn mended(bytes: Seq<u8>) -> Seq<char>;

/// Bytes read as UTF-8, with every ill-formed piece replaced.
pub open spec fn utf8_lossy(bytes: Seq<u8>) -> Seq<char> {
    if valid_utf8(bytes) {
        decode_utf8(bytes)
    } else {
        mended(bytes)
    }
}

/// `String::from_utf8_lossy`: on well-formed UTF-8 the decoding itself; what it
/// makes of ill-formed bytes only has a name.
#[verifier::external_body]
pub(crate) fn from_utf8_lossy(bytes: &[u8]) -> (r: String)
    ensures
        r@ == utf8_lossy(bytes@),
        !valid_utf8(bytes@) ==> r@ == mended(bytes@),
{
    String::from_utf8_lossy(bytes).into_owned()
}

/// `String::from_utf8`: the text that the bytes encode, or nothing where they
/// are not well-formed UTF-8.
#[verifier::external_body]
pub(crate) fn from_utf8(bytes: Vec<u8>) -> (r: Option<String>)
    ensures
        r is Some <==> valid_utf8(bytes@),
        r matches Some(s) ==> s@ == decode_utf8(bytes@),
{
    String::from_utf8(bytes).ok()
}

/// Whether a character beyond ASCII is white space, by `char::is_whitespace`.
pub uninterp spec fn is_wide_white(c: char) -> bool;

/// Whether a character is white space: in ASCII the space and the five control
/// characters from tab to carriage return.
pub open spec fn is_white(c: char) -> bool {
    if (c as u32) < 128 {
        c as u32 == 32 || 9 <= c as u32 <= 13
    } else {
        is_wide_white(c)
    }
}

/// `char::is_whitespace`: whether the character has the Unicode property
/// White_Space. Beyond ASCII the answer only has a name.
pub assume_specification[ char::is_whitespace ](c: char) -> (r: bool)
    ensures
        r == is_white(c),
        c as u32 >= 128 ==> r == is_wide_white(c),
;

/// What `str::to_lowercase` makes of a text.
pub uninterp spec fn lowercased(s: Seq<char>) -> Seq<char>;

/// The lower-case form of an ASCII character.
pub open spec fn ascii_lower(c: char) -> char {
    if 'A' <= c <= 'Z' {
        (c as u32 + 32) as char
    } else {
        c
    }
}

/// `str::to_lowercase`: the lower-case form by the Unicode rules. In ASCII text
/// it is that of each letter; otherwise the result only has a name.
pub assume_specification[ str::to_lowercase ](s: &str) -> (r: String)
    ensures
        r@ == lowercased(s@),
        is_ascii_chars(s@) ==> r@ == s@.map_values(|c: char| ascii_lower(c)),
;

/// Whether two texts are the same.
pub fn same(a: &str, b: &str) -> (r: bool)
    ensures
        r == (a@ == b@),
{
    *a == *b
}

/// Whether two byte strings are the same.
pub fn same_bytes(a: &[u8], b: &[u8]) -> (r: bool)
    ensures
        r == (a@ == b@),
{
    if a.len() != b.len() {
        return false;
    }
    let r = bytes_start_with(a, b);
    assert(a@.subrange(0, b@.len() as int) =~= a@);
    r
}

/// The characters of a text.
pub fn chars_of(s: &str) -> (r: Vec<char>)
    ensures
        r@ == s@,
{
    let mut out: Vec<char> = Vec::new();
    for c in it: s.chars()
        invariant
            out@ == it.seq().take(it.index() as int),
            it.seq() == s@,
    {
        out.push(c);
    }
    out
}

/// The text made of the characters `from..to`.
pub fn text_of(chars: &Vec<char>, from: usize, to: usize) -> (r: String)
    requires
        from <= to <= chars@.len(),
    ensures
        r@ == chars@.subrange(from as int, to as int),
{
    let mut out = String::new();
    let mut i: usize = from;
    while i < to
        invariant
            from <= i <= to <= chars@.len(),
            out@ == chars@.subrange(from as int, i as int),
        decreases to - i,
    {
        out.push(chars[i]);
        i += 1;
    }
    out
}

/// The encoding of two texts in a row is that of the first, then that of the
/// second.
pub proof fn encoding_joins(a: Seq<char>, b: Seq<char>)
    ensures
        encode_utf8(a + b) == encode_utf8(a) + encode_utf8(b),
    decreases a.len(),
{
    if a.len() == 0 {
        assert(a + b =~= b);
        assert(encode_utf8(a) + encode_utf8(b) =~= encode_utf8(b));
    } else {
        encoding_joins(a.drop_first(), b);
        assert((a + b).drop_first() =~= a.drop_first() + b);
        assert(encode_utf8(a + b) =~= encode_utf8(a) + encode_utf8(b));
    }
}

/// The encoding of a text that is not empty is not empty.
pub proof fn encoding_is_not_empty(s: Seq<char>)
    requires
        s.len() > 0,
    ensures
        encode_utf8(s).len() > 0,
{
    assert(encode_scalar(s[0] as u32).len() > 0);
}

// ---------------------------------------------------------------------------
// Order
// ---------------------------------------------------------------------------

/// Lexicographic order of byte strings.
pub open spec fn bytes_lt(a: Seq<u8>, b: Seq<u8>) -> bool
    decreases b.len(),
{
    if b.len() == 0 {
        false
    } else if a.len() == 0 {
        true
    } else if a[0] != b[0] {
        a[0] < b[0]
    } else {
        bytes_lt(a.skip(1), b.skip(1))
    }
}

/// The order of texts: that of their UTF-8 bytes.
pub open spec fn text_lt(a: Seq<char>, b: Seq<char>) -> bool {
    bytes_lt(encode_utf8(a), encode_utf8(b))
}

/// No byte string is below itself.
pub proof fn bytes_lt_irreflexive(a: Seq<u8>)
    ensures
        !bytes_lt(a, a),
    decreases a.len(),
{
    if a.len() > 0 {
        bytes_lt_irreflexive(a.skip(1));
    }
}

/// The order of byte strings is transitive.
pub proof fn bytes_lt_transitive(a: Seq<u8>, b: Seq<u8>, c: Seq<u8>)
    requires
        bytes_lt(a, b),
        bytes_lt(b, c),
    ensures
        bytes_lt(a, c),
    decreases a.len(),
{
    if a.len() > 0 && a[0] == b[0] && b[0] == c[0] {
        bytes_lt_transitive(a.skip(1), b.skip(1), c.skip(1));
    }
}

/// Of two different byte strings one is below the other.
pub proof fn bytes_lt_total(a: Seq<u8>, b: Seq<u8>)
    ensures
        a == b || bytes_lt(a, b) || bytes_lt(b, a),
    decreases a.len(),
{
    if a.len() == 0 || b.len() == 0 {
        if a.len() == 0 && b.len() == 0 {
            assert(a =~= b);
        }
    } else if a[0] == b[0] {
        bytes_lt_total(a.skip(1), b.skip(1));
        if a.skip(1) == b.skip(1) {
            assert(a =~= seq![a[0]] + a.skip(1));
            assert(b =~= seq![b[0]] + b.skip(1));
        }
    }
}

/// The order of texts is a strict total order.
pub proof fn text_order_is_strict_and_total(a: Seq<char>, b: Seq<char>, c: Seq<char>)
    ensures
        !text_lt(a, a),
        text_lt(a, b) && text_lt(b, c) ==> text_lt(a, c),
        a == b || text_lt(a, b) || text_lt(b, a),
{
    bytes_lt_irreflexive(encode_utf8(a));
    if text_lt(a, b) && text_lt(b, c) {
        bytes_lt_transitive(encode_utf8(a), encode_utf8(b), encode_utf8(c));
    }
    bytes_lt_total(encode_utf8(a), encode_utf8(b));
    encode_utf8_decode_utf8(a);
    encode_utf8_decode_utf8(b);
}

/// Whether the first text is below the second.
pub fn text_below(a: &str, b: &str) -> (r: bool)
    ensures
        r == text_lt(a@, b@),
{
    let x = a.as_bytes();
    let y = b.as_bytes();
    let mut i: usize = 0;
    assert(x@.skip(0) =~= x@);
    assert(y@.skip(0) =~= y@);
    while i < x.len() && i < y.len() && x[i] == y[i]
        invariant
            i <= x@.len(),
            i <= y@.len(),
            bytes_lt(x@, y@) == bytes_lt(x@.skip(i as int), y@.skip(i as int)),
        decreases x@.len() - i,
    {
        proof {
            let p = x@.skip(i as int);
            let q = y@.skip(i as int);
            assert(p.skip(1) =~= x@.skip(i as int + 1));
            assert(q.skip(1) =~= y@.skip(i as int + 1));
        }
        i += 1;
    }
    if i >= y.len() {
        false
    } else if i >= x.len() {
        true
    } else {
        x[i] < y[i]
    }
}

// ---------------------------------------------------------------------------
// Splitting and joining
// ---------------------------------------------------------------------------

/// The pieces of a text between the occurrences of a separator. There is one
/// piece more than there are separators.
pub open spec fn split_on(s: Seq<char>, sep: char) -> Seq<Seq<char>>
    decreases s.len(),
{
    if s.len() == 0 {
        seq![Seq::<char>::empty()]
    } else {
        let front = split_on(s.drop_last(), sep);
        if s.last() == sep {
            front.push(Seq::<char>::empty())
        } else {
            front.drop_last().push(front.last().push(s.last()))
        }
    }
}

/// Pieces put together with a separator between them.
pub open spec fn join_with(parts: Seq<Seq<char>>, sep: char) -> Seq<char>
    decreases parts.len(),
{
    if parts.len() == 0 {
        Seq::<char>::empty()
    } else if parts.len() == 1 {
        parts[0]
    } else {
        join_with(parts.drop_last(), sep).push(sep) + parts.last()
    }
}

/// A text always has at least one piece, and no piece holds the separator.
pub proof fn split_on_pieces(s: Seq<char>, sep: char)
    ensures
        split_on(s, sep).len() >= 1,
        forall|i: int| 0 <= i < split_on(s, sep).len() ==> !(#[trigger] split_on(s, sep)[i]).contains(sep),
    decreases s.len(),
{
    if s.len() > 0 {
        split_on_pieces(s.drop_last(), sep);
        let front = split_on(s.drop_last(), sep);
        let all = split_on(s, sep);
        assert forall|i: int| 0 <= i < all.len() implies !(#[trigger] all[i]).contains(sep) by {
            if s.last() == sep {
                if i < front.len() {
                    assert(all[i] == front[i]);
                }
            } else {
                if i < front.len() - 1 {
                    assert(all[i] == front[i]);
                } else {
                    let p = front[front.len() - 1];
                    assert(all[i] == p.push(s.last()));
                    if all[i].contains(sep) {
                        let k = choose|k: int| 0 <= k < all[i].len() && all[i][k] == sep;
                        assert(p[k] == sep);
                    }
                }
            }
        }
    }
}

/// Joining the pieces of a text gives the text back.
pub proof fn join_undoes_split(s: Seq<char>, sep: char)
    ensures
        join_with(split_on(s, sep), sep) == s,
    decreases s.len(),
{
    split_on_pieces(s, sep);
    if s.len() == 0 {
        assert(join_with(split_on(s, sep), sep) =~= s);
    } else {
        let front = split_on(s.drop_last(), sep);
        join_undoes_split(s.drop_last(), sep);
        split_on_pieces(s.drop_last(), sep);
        assert(s =~= s.drop_last().push(s.last()));
        if s.last() == sep {
            let all = front.push(Seq::<char>::empty());
            assert(all.drop_last() =~= front);
            assert(join_with(all, sep) =~= s);
        } else {
            let all = front.drop_last().push(front.last().push(s.last()));
            assert(all.drop_last() =~= front.drop_last());
            if front.len() == 1 {
                assert(join_with(all, sep) =~= s);
            } else {
                assert(join_with(all, sep) =~= join_with(front.drop_last(), sep).push(sep) + front.last().push(s.last()));
                assert(join_with(all, sep) =~= s);
            }
        }
    }
}

/// Appending a piece without separators to a text extends its last piece.
pub proof fn split_on_append(s: Seq<char>, t: Seq<char>, sep: char)
    requires
        !t.contains(sep),
    ensures
        split_on(s + t, sep) == split_on(s, sep).drop_last().push(split_on(s, sep).last() + t),
    decreases t.len(),
{
    let front = split_on(s, sep);
    split_on_pieces(s, sep);
    if t.len() == 0 {
        assert(s + t =~= s);
        assert(front.last() + t =~= front.last());
        assert(front =~= front.drop_last().push(front.last()));
    } else {
        let u = t.drop_last();
        assert forall|k: int| 0 <= k < u.len() implies u[k] != sep by {
            assert(t.contains(t[k]));
        }
        assert(t.contains(t.last()));
        split_on_append(s, u, sep);
        assert((s + t).drop_last() =~= s + u);
        let before = split_on(s + u, sep);
        assert(before.drop_last() =~= front.drop_last());
        assert((front.last() + u).push(t.last()) =~= front.last() + t);
    }
}

/// A text, a separator and a text without separators: the pieces of the first,
/// then the second.
pub proof fn split_on_separator(s: Seq<char>, t: Seq<char>, sep: char)
    requires
        !t.contains(sep),
    ensures
        split_on(s.push(sep) + t, sep) == split_on(s, sep).push(t),
{
    let p = s.push(sep);
    assert(p.drop_last() =~= s);
    split_on_append(p, t, sep);
    let pieces = split_on(p, sep);
    assert(pieces == split_on(s, sep).push(Seq::<char>::empty()));
    assert(pieces.drop_last() =~= split_on(s, sep));
    assert(pieces.last() + t =~= t);
}

/// The pieces of two texts with a separator between them are those of the
/// first, then those of the second.
pub proof fn split_on_concat(a: Seq<char>, b: Seq<char>, sep: char)
    ensures
        split_on(a.push(sep) + b, sep) == split_on(a, sep) + split_on(b, sep),
    decreases b.len(),
{
    split_on_pieces(a, sep);
    split_on_pieces(b, sep);
    if b.len() == 0 {
        assert(a.push(sep) + b =~= a.push(sep));
        assert(a.push(sep).drop_last() =~= a);
        assert(split_on(b, sep) =~= seq![Seq::<char>::empty()]);
        assert(split_on(a.push(sep), sep) =~= split_on(a, sep) + split_on(b, sep));
    } else {
        let c = b.drop_last();
        split_on_concat(a, c, sep);
        split_on_pieces(c, sep);
        let whole = a.push(sep) + b;
        assert(whole.drop_last() =~= a.push(sep) + c);
        assert(whole.last() == b.last());
        let front = split_on(a.push(sep) + c, sep);
        assert(front == split_on(a, sep) + split_on(c, sep));
        if b.last() == sep {
            assert(split_on(whole, sep) =~= split_on(a, sep) + split_on(b, sep));
        } else {
            assert(front.last() == split_on(c, sep).last());
            assert(front.drop_last() =~= split_on(a, sep) + split_on(c, sep).drop_last());
            assert(split_on(whole, sep) =~= split_on(a, sep) + split_on(b, sep));
        }
    }
}

/// Splitting what was joined gives the pieces back, if none holds the
/// separator.
pub proof fn split_undoes_join(parts: Seq<Seq<char>>, sep: char)
    requires
        parts.len() >= 1,
        forall|i: int| 0 <= i < parts.len() ==> !(#[trigger] parts[i]).contains(sep),
    ensures
        split_on(join_with(parts, sep), sep) == parts,
    decreases parts.len(),
{
    if parts.len() == 1 {
        let e = Seq::<char>::empty();
        split_on_append(e, parts[0], sep);
        assert(e + parts[0] =~= parts[0]);
        assert(split_on(e, sep) == seq![e]);
        assert(split_on(parts[0], sep) =~= parts);
    } else {
        assert forall|i: int| 0 <= i < parts.drop_last().len() implies !(#[trigger] parts.drop_last()[i]).contains(sep) by {
            assert(parts.drop_last()[i] == parts[i]);
        }
        split_undoes_join(parts.drop_last(), sep);
        split_on_separator(join_with(parts.drop_last(), sep), parts.last(), sep);
        assert(parts =~= parts.drop_last().push(parts.last()));
    }
}

/// The views of a list of texts.
pub open spec fn texts(v: Seq<String>) -> Seq<Seq<char>> {
    v.map_values(|s: String| s@)
}

/// The pieces of a text between the occurrences of a separator.
pub fn split(s: &str, sep: char) -> (r: Vec<String>)
    ensures
        texts(r@) == split_on(s@, sep),
{
    let chars = chars_of(s);
    let mut done: Vec<String> = Vec::new();
    let mut piece = String::new();
    let mut i: usize = 0;
    assert(texts(done@).push(piece@) =~= split_on(s@.take(0), sep));
    while i < chars.len()
        invariant
            i <= chars@.len(),
            chars@ == s@,
            texts(done@).push(piece@) == split_on(s@.take(i as int), sep),
        decreases chars@.len() - i,
    {
        let c = chars[i];
        let ghost front = texts(done@).push(piece@);
        let ghost before = done@;
        proof {
            assert(s@.take(i as int + 1).drop_last() =~= s@.take(i as int));
            assert(s@.take(i as int + 1).last() == c);
            assert(front.drop_last() =~= texts(before));
        }
        if c == sep {
            done.push(piece);
            piece = String::new();
            assert(texts(done@) =~= front);
        } else {
            piece.push(c);
        }
        i += 1;
    }
    let ghost front = done@;
    let ghost last = piece@;
    done.push(piece);
    proof {
        assert(s@.take(chars@.len() as int) =~= s@);
        assert(texts(done@) =~= texts(front).push(last));
    }
    done
}

/// The pieces `from..to` put together with a separator between them.
pub fn join(parts: &Vec<String>, from: usize, to: usize, sep: char) -> (r: String)
    requires
        from <= to <= parts@.len(),
    ensures
        r@ == join_with(texts(parts@).subrange(from as int, to as int), sep),
{
    let ghost all = texts(parts@);
    let mut out = String::new();
    let mut i: usize = from;
    assert(join_with(all.subrange(from as int, from as int), sep) =~= out@);
    while i < to
        invariant
            from <= i <= to <= parts@.len(),
            all == texts(parts@),
            out@ == join_with(all.subrange(from as int, i as int), sep),
        decreases to - i,
    {
        proof {
            let next = all.subrange(from as int, i as int + 1);
            assert(next.drop_last() =~= all.subrange(from as int, i as int));
            assert(next.last() == parts@[i as int]@);
        }
        if i > from {
            out.push(sep);
        }
        let ghost so_far = out@;
        out.append(parts[i].as_str());
        proof {
            if i == from {
                assert(so_far =~= Seq::<char>::empty());
                assert(so_far + parts@[i as int]@ =~= parts@[i as int]@);
            }
        }
        i += 1;
    }
    out
}

// ---------------------------------------------------------------------------
// Single characters
// ---------------------------------------------------------------------------

/// Whether a text starts with another.
pub fn starts_with(s: &str, prefix: &str) -> (r: bool)
    ensures
        r == prefix@.is_prefix_of(s@),
{
    let a = chars_of(s);
    let b = chars_of(prefix);
    if b.len() > a.len() {
        return false;
    }
    let mut i: usize = 0;
    while i < b.len()
        invariant
            i <= b@.len() <= a@.len(),
            a@ == s@,
            b@ == prefix@,
            forall|j: int| 0 <= j < i ==> a@[j] == b@[j],
        decreases b@.len() - i,
    {
        if a[i] != b[i] {
            assert(s@.subrange(0, prefix@.len() as int)[i as int] != prefix@[i as int]);
            return false;
        }
        i += 1;
    }
    assert(s@.subrange(0, prefix@.len() as int) =~= prefix@);
    true
}

/// Whether bytes start with others.
pub fn bytes_start_with(data: &[u8], prefix: &[u8]) -> (r: bool)
    ensures
        r == prefix@.is_prefix_of(data@),
{
    if prefix.len() > data.len() {
        return false;
    }
    let mut i: usize = 0;
    while i < prefix.len()
        invariant
            i <= prefix@.len() <= data@.len(),
            forall|j: int| 0 <= j < i ==> data@[j] == prefix@[j],
        decreases prefix@.len() - i,
    {
        if data[i] != prefix[i] {
            assert(data@.subrange(0, prefix@.len() as int)[i as int] != prefix@[i as int]);
            return false;
        }
        i += 1;
    }
    assert(data@.subrange(0, prefix@.len() as int) =~= prefix@);
    true
}

/// Whether a text is nothing but white space.
pub open spec fn is_blank(s: Seq<char>) -> bool {
    forall|i: int| 0 <= i < s.len() ==> is_white(#[trigger] s[i])
}

/// Whether a text is nothing but white space.
pub fn blank(s: &str) -> (r: bool)
    ensures
        r == is_blank(s@),
{
    let chars = chars_of(s);
    let mut i: usize = 0;
    while i < chars.len()
        invariant
            i <= chars@.len(),
            chars@ == s@,
            forall|j: int| 0 <= j < i ==> is_white(#[trigger] s@[j]),
        decreases chars@.len() - i,
    {
        if !chars[i].is_whitespace() {
            assert(!is_white(s@[i as int]));
            return false;
        }
        i += 1;
    }
    true
}

/// A text without the white space at its ends.
pub open spec fn trimmed(s: Seq<char>) -> Seq<char>
    decreases s.len(),
{
    if s.len() == 0 {
        s
    } else if is_white(s[0]) {
        trimmed(s.skip(1))
    } else if is_white(s.last()) {
        trimmed(s.drop_last())
    } else {
        s
    }
}

/// A text without the white space at its ends.
pub fn trim(s: &str) -> (r: String)
    ensures
        r@ == trimmed(s@),
{
    let chars = chars_of(s);
    let mut from: usize = 0;
    let mut to: usize = chars.len();
    assert(s@.subrange(0, to as int) =~= s@);
    while from < to && chars[from].is_whitespace()
        invariant
            from <= to == chars@.len(),
            chars@ == s@,
            trimmed(s@) == trimmed(s@.subrange(from as int, to as int)),
        ensures
            from == to || !is_white(s@[from as int]),
        decreases to - from,
    {
        proof {
            let t = s@.subrange(from as int, to as int);
            assert(t[0] == s@[from as int]);
            assert(t.skip(1) =~= s@.subrange(from as int + 1, to as int));
        }
        from += 1;
    }
    while from < to && chars[to - 1].is_whitespace()
        invariant
            from <= to <= chars@.len(),
            chars@ == s@,
            from == to || !is_white(s@[from as int]),
            trimmed(s@) == trimmed(s@.subrange(from as int, to as int)),
        ensures
            from == to || !is_white(s@[from as int]) && !is_white(s@[to - 1]),
        decreases to - from,
    {
        proof {
            let t = s@.subrange(from as int, to as int);
            assert(t[0] == s@[from as int]);
            assert(t.last() == s@[to - 1]);
            assert(t.drop_last() =~= s@.subrange(from as int, to as int - 1));
        }
        to -= 1;
    }
    proof {
        let t = s@.subrange(from as int, to as int);
        if from < to {
            assert(t[0] == s@[from as int]);
            assert(t.last() == s@[to - 1]);
        }
    }
    text_of(&chars, from, to)
}

/// The text with every `from` made a `to`.
pub open spec fn replaced(s: Seq<char>, from: char, to: char) -> Seq<char> {
    s.map_values(|c: char| if c == from { to } else { c })
}

/// The text with every `from` made a `to`.
pub fn replace(s: &str, from: char, to: char) -> (r: String)
    ensures
        r@ == replaced(s@, from, to),
{
    let chars = chars_of(s);
    let mut out = String::new();
    let mut i: usize = 0;
    while i < chars.len()
        invariant
            i <= chars@.len(),
            chars@ == s@,
            out@ == replaced(s@, from, to).take(i as int),
        decreases chars@.len() - i,
    {
        if chars[i] == from {
            out.push(to);
        } else {
            out.push(chars[i]);
        }
        i += 1;
    }
    assert(replaced(s@, from, to).take(chars@.len() as int) =~= replaced(s@, from, to));
    out
}

// ---------------------------------------------------------------------------
// Decimal numbers
// ---------------------------------------------------------------------------

/// The decimal digit of a number below ten.
pub open spec fn digit(n: nat) -> char {
    (('0' as nat) + n) as char
}

/// A number in decimal, without leading zeros.
pub open spec fn decimal(n: nat) -> Seq<char>
    decreases n,
{
    if n < 10 {
        seq![digit(n)]
    } else {
        decimal(n / 10).push(digit(n % 10))
    }
}

fn digit_char(n: u8) -> (c: char)
    requires
        n < 10,
    ensures
        c == digit(n as nat),
{
    (48u8 + n) as char
}

/// A number in decimal.
pub fn decimal_text(n: u128) -> (r: String)
    ensures
        r@ == decimal(n as nat),
    decreases n,
{
    if n < 10 {
        let mut out = String::new();
        out.push(digit_char(n as u8));
        assert(out@ =~= decimal(n as nat));
        out
    } else {
        let mut out = decimal_text(n / 10);
        out.push(digit_char((n % 10) as u8));
        out
    }
}

/// Whether a character is a decimal digit.
pub open spec fn is_digit(c: char) -> bool {
    '0' <= c <= '9'
}

/// The number that a run of decimal digits stands for.
pub open spec fn digits_value(s: Seq<char>) -> nat
    decreases s.len(),
{
    if s.len() == 0 {
        0
    } else {
        10 * digits_value(s.drop_last()) + (s.last() as nat - '0' as nat) as nat
    }
}

/// Whether a text is a non-empty run of decimal digits.
pub open spec fn is_digits(s: Seq<char>) -> bool {
    s.len() > 0 && forall|i: int| 0 <= i < s.len() ==> is_digit(#[trigger] s[i])
}

/// A decimal text stands for the number it was made of.
pub proof fn decimal_reads_back(n: nat)
    ensures
        is_digits(decimal(n)),
        digits_value(decimal(n)) == n,
        !decimal(n).contains(':'),
        decimal(n)[0] != '+',
        decimal(n)[0] != '-',
    decreases n,
{
    reveal_with_fuel(digits_value, 2);
    if n >= 10 {
        decimal_reads_back(n / 10);
        let d = decimal(n / 10);
        assert(decimal(n).drop_last() =~= d);
        assert forall|i: int| 0 <= i < decimal(n).len() implies is_digit(#[trigger] decimal(n)[i]) by {
            if i < d.len() {
                assert(decimal(n)[i] == d[i]);
            }
        }
    } else {
        assert(decimal(n).drop_last() =~= Seq::<char>::empty());
    }
    assert forall|i: int| 0 <= i < decimal(n).len() implies decimal(n)[i] != ':' by {
        assert(is_digit(decimal(n)[i]));
    }
    assert(is_digit(decimal(n)[0]));
}

/// The 64-bit number that a text stands for: an optional sign, then digits.
pub open spec fn signed_value(s: Seq<char>) -> Option<int> {
    let negative = s.len() > 0 && s[0] == '-';
    let digits = if s.len() > 0 && (s[0] == '+' || s[0] == '-') {
        s.skip(1)
    } else {
        s
    };
    let v = if negative {
        -(digits_value(digits) as int)
    } else {
        digits_value(digits) as int
    };
    if is_digits(digits) && i64::MIN <= v <= i64::MAX {
        Some(v)
    } else {
        None
    }
}

proof fn digits_value_grows(s: Seq<char>, i: int)
    requires
        0 <= i <= s.len(),
    ensures
        digits_value(s.take(i)) <= digits_value(s),
    decreases s.len(),
{
    if i == s.len() {
        assert(s.take(i) =~= s);
    } else {
        digits_value_grows(s.drop_last(), i);
        assert(s.drop_last().take(i) =~= s.take(i));
    }
}

/// The 64-bit number that a text stands for.
pub fn parse_i64(s: &str) -> (r: Option<i64>)
    ensures
        match signed_value(s@) {
            Some(v) => r matches Some(n) && n == v,
            None => r is None,
        },
{
    let chars = chars_of(s);
    if chars.len() == 0 {
        return None;
    }
    let negative = chars[0] == '-';
    let start: usize = if chars[0] == '-' || chars[0] == '+' {
        1
    } else {
        0
    };
    let ghost digits = s@.skip(start as int);
    proof {
        if start == 0 {
            assert(digits =~= s@);
        }
    }
    if start == chars.len() {
        return None;
    }
    let limit: i128 = 9_223_372_036_854_775_808;
    let mut value: i128 = 0;
    let mut i: usize = start;
    while i < chars.len()
        invariant
            start <= i <= chars@.len(),
            chars@ == s@,
            s@.len() > 0,
            negative == (s@[0] == '-'),
            start == (if s@[0] == '-' || s@[0] == '+' { 1int } else { 0int }),
            digits == s@.skip(start as int),
            start == 0 ==> digits == s@,
            limit == 9_223_372_036_854_775_808,
            0 <= value <= limit,
            value == digits_value(digits.take(i - start)),
            forall|j: int| 0 <= j < i - start ==> is_digit(#[trigger] digits[j]),
        decreases chars@.len() - i,
    {
        let c = chars[i];
        let ghost k = i - start;
        proof {
            assert(digits.take(k + 1).drop_last() =~= digits.take(k));
            assert(digits.take(k + 1).last() == c);
            assert(digits[k] == c);
        }
        if c < '0' || c > '9' {
            assert(!is_digit(digits[k]));
            return None;
        }
        value = value * 10 + (c as u32 as i128 - 48);
        if value > limit {
            proof {
                digits_value_grows(digits, k + 1);
            }
            return None;
        }
        i += 1;
    }
    assert(digits.take(i - start) =~= digits);
    if negative {
        Some((0 - value) as i64)
    } else if value == limit {
        None
    } else {
        Some(value as i64)
    }
}

/// A number below 2^63 in decimal is read back.
pub proof fn decimal_parses_back(n: nat)
    requires
        n <= i64::MAX,
    ensures
        signed_value(decimal(n)) == Some(n as int),
{
    decimal_reads_back(n);
}

// ---------------------------------------------------------------------------
// Laws
// ---------------------------------------------------------------------------

/// Whether two byte strings are the same up to a place.
pub open spec fn agree_up_to(a: Seq<u8>, b: Seq<u8>, k: int) -> bool {
    &&& 0 <= k <= a.len() && k <= b.len()
    &&& forall|i: int| 0 <= i < k ==> #[trigger] a[i] == b[i]
}

/// Of two byte strings the one with the lower byte in the first place where they
/// differ is below the other; one that ends there is below a longer one.
pub proof fn first_difference_orders(a: Seq<u8>, b: Seq<u8>, k: int)
    requires
        agree_up_to(a, b, k),
    ensures
        k < a.len() && k < b.len() && a[k] < b[k] ==> bytes_lt(a, b),
        k < a.len() && k < b.len() && a[k] > b[k] ==> !bytes_lt(a, b),
        k == a.len() && k < b.len() ==> bytes_lt(a, b),
        k == b.len() ==> !bytes_lt(a, b),
    decreases k,
{
    if k > 0 {
        assert(a[0] == b[0]);
        let x = a.skip(1);
        let y = b.skip(1);
        assert forall|i: int| 0 <= i < k - 1 implies #[trigger] x[i] == y[i] by {
            assert(a[i + 1] == b[i + 1]);
        }
        first_difference_orders(x, y, k - 1);
    }
}

/// Two texts are ordered by the first of their UTF-8 bytes that differ.
pub proof fn texts_are_ordered_by_their_bytes(a: &str, b: &str, r: bool, k: int)
    requires
        call_ensures(text_below, (a, b), r),
        agree_up_to(encode_utf8(a@), encode_utf8(b@), k),
    ensures
        k < encode_utf8(a@).len() && k < encode_utf8(b@).len() && encode_utf8(a@)[k] < encode_utf8(b@)[k] ==> r,
        k < encode_utf8(a@).len() && k < encode_utf8(b@).len() && encode_utf8(a@)[k] > encode_utf8(b@)[k] ==> !r,
        k == encode_utf8(a@).len() && k < encode_utf8(b@).len() ==> r,
        k == encode_utf8(b@).len() ==> !r,
{
    first_difference_orders(encode_utf8(a@), encode_utf8(b@), k);
}

/// Two texts are the same where their characters are, and two byte strings where
/// their bytes are.
pub proof fn the_same_are_equal(a: &str, b: &str, r: bool, x: &[u8], y: &[u8], q: bool)
    requires
        call_ensures(same, (a, b), r),
        call_ensures(same_bytes, (x, y), q),
    ensures
        r <==> a@.len() == b@.len() && forall|i: int| 0 <= i < a@.len() ==> #[trigger] a@[i] == b@[i],
        q <==> x@.len() == y@.len() && forall|i: int| 0 <= i < x@.len() ==> #[trigger] x@[i] == y@[i],
{
    if a@.len() == b@.len() && forall|i: int| 0 <= i < a@.len() ==> #[trigger] a@[i] == b@[i] {
        assert(a@ =~= b@);
    }
    if x@.len() == y@.len() && forall|i: int| 0 <= i < x@.len() ==> #[trigger] x@[i] == y@[i] {
        assert(x@ =~= y@);
    }
}

/// A text starts with another where the first characters are those of the other,
/// and byte strings likewise.
pub proof fn beginnings_are_equal(s: &str, prefix: &str, r: bool, data: &[u8], start: &[u8], q: bool)
    requires
        call_ensures(starts_with, (s, prefix), r),
        call_ensures(bytes_start_with, (data, start), q),
    ensures
        r <==> prefix@.len() <= s@.len() && forall|i: int| 0 <= i < prefix@.len() ==> #[trigger] s@[i] == prefix@[i],
        q <==> start@.len() <= data@.len() && forall|i: int| 0 <= i < start@.len() ==> #[trigger] data@[i] == start@[i],
{
    if prefix@.len() <= s@.len() {
        let front = s@.subrange(0, prefix@.len() as int);
        if forall|i: int| 0 <= i < prefix@.len() ==> #[trigger] s@[i] == prefix@[i] {
            assert(front =~= prefix@);
        }
        if r {
            assert forall|i: int| 0 <= i < prefix@.len() implies #[trigger] s@[i] == prefix@[i] by {
                assert(front[i] == s@[i]);
            }
        }
    }
    if start@.len() <= data@.len() {
        let front = data@.subrange(0, start@.len() as int);
        if forall|i: int| 0 <= i < start@.len() ==> #[trigger] data@[i] == start@[i] {
            assert(front =~= start@);
        }
        if q {
            assert forall|i: int| 0 <= i < start@.len() implies #[trigger] data@[i] == start@[i] by {
                assert(front[i] == data@[i]);
            }
        }
    }
}

/// The characters of a text make it up again.
pub proof fn characters_make_up_the_text(s: &str, chars: Vec<char>, from: usize, to: usize, r: String, i: int)
    requires
        call_ensures(chars_of, (s,), chars),
        from <= to <= chars@.len(),
        call_ensures(text_of, (&chars, from, to), r),
    ensures
        chars@.len() == s@.len(),
        0 <= i < s@.len() ==> chars@[i] == s@[i],
        r@.len() == to - from,
        0 <= i < r@.len() ==> r@[i] == s@[from + i],
{
}

/// A text is split into the pieces between its separators, none of which holds
/// one; put together again with a separator between each they are the text.
pub proof fn pieces_make_up_the_text(s: &str, sep: char, parts: Vec<String>, r: String)
    requires
        call_ensures(split, (s, sep), parts),
        parts@.len() <= usize::MAX,
        call_ensures(join, (&parts, 0usize, parts@.len() as usize, sep), r),
    ensures
        parts@.len() > 0,
        forall|i: int| 0 <= i < parts@.len() ==> !(#[trigger] parts@[i])@.contains(sep),
        r@ == s@,
{
    let pieces = split_on(s@, sep);
    split_on_pieces(s@, sep);
    join_undoes_split(s@, sep);
    assert(texts(parts@) == pieces);
    assert(pieces.subrange(0, parts@.len() as int) =~= pieces);
    assert forall|i: int| 0 <= i < parts@.len() implies !(#[trigger] parts@[i])@.contains(sep) by {
        assert(pieces[i] == parts@[i]@);
    }
}

/// A text is blank where each of its characters is white space.
pub proof fn blank_texts_are_white(s: &str, r: bool)
    requires
        call_ensures(blank, (s,), r),
    ensures
        r <==> forall|i: int| 0 <= i < s@.len() ==> is_white(#[trigger] s@[i]),
{
}

/// Where a text starts and ends without the white space around it.
proof fn trimmed_piece(s: Seq<char>) -> (place: (int, int))
    ensures
        0 <= place.0 <= place.1 <= s.len(),
        trimmed(s) == s.subrange(place.0, place.1),
        forall|i: int| 0 <= i < s.len() && !(place.0 <= i < place.1) ==> is_white(#[trigger] s[i]),
        place.0 < place.1 ==> !is_white(s[place.0]) && !is_white(s[place.1 - 1]),
    decreases s.len(),
{
    if s.len() == 0 {
        assert(s =~= s.subrange(0, 0));
        (0int, 0int)
    } else if is_white(s[0]) {
        let t = s.skip(1);
        let (a, b) = trimmed_piece(t);
        assert(t.subrange(a, b) =~= s.subrange(a + 1, b + 1));
        assert forall|i: int| 0 <= i < s.len() && !(a + 1 <= i < b + 1) implies is_white(#[trigger] s[i]) by {
            if i > 0 {
                assert(is_white(t[i - 1]));
            }
        }
        (a + 1, b + 1)
    } else if is_white(s.last()) {
        let t = s.drop_last();
        let (a, b) = trimmed_piece(t);
        assert(t.subrange(a, b) =~= s.subrange(a, b));
        assert forall|i: int| 0 <= i < s.len() && !(a <= i < b) implies is_white(#[trigger] s[i]) by {
            if i < s.len() - 1 {
                assert(is_white(t[i]));
            }
        }
        (a, b)
    } else {
        assert(s =~= s.subrange(0, s.len() as int));
        (0int, s.len() as int)
    }
}

/// Trimming takes white space from the ends of a text and nothing else: what is
/// left is a piece of the text without white space at its ends, and what was
/// around it is white space.
pub proof fn only_white_space_is_trimmed(s: &str, r: String) -> (place: (int, int))
    requires
        call_ensures(trim, (s,), r),
    ensures
        0 <= place.0 <= place.1 <= s@.len(),
        r@ == s@.subrange(place.0, place.1),
        forall|i: int| 0 <= i < s@.len() && !(place.0 <= i < place.1) ==> is_white(#[trigger] s@[i]),
        r@.len() > 0 ==> !is_white(r@[0]) && !is_white(r@.last()),
{
    trimmed_piece(s@)
}

/// Replacing a character changes it wherever it stands, and no other.
pub proof fn only_the_character_is_replaced(s: &str, from: char, to: char, r: String, i: int)
    requires
        call_ensures(replace, (s, from, to), r),
        0 <= i < s@.len(),
    ensures
        r@.len() == s@.len(),
        s@[i] == from ==> r@[i] == to,
        s@[i] != from ==> r@[i] == s@[i],
{
}

/// A number is written with digits alone, the first of which is no zero unless
/// the number is zero, and they stand for the number.
pub proof fn numbers_are_written_in_digits(n: u128, r: String)
    requires
        call_ensures(decimal_text, (n,), r),
    ensures
        r@.len() > 0,
        forall|i: int| 0 <= i < r@.len() ==> '0' <= #[trigger] r@[i] <= '9',
        digits_value(r@) == n,
        n > 0 ==> r@[0] != '0',
        n == 0 ==> r@ == "0"@,
{
    reveal_strlit("0");
    decimal_reads_back(n as nat);
    assert forall|i: int| 0 <= i < r@.len() implies '0' <= #[trigger] r@[i] <= '9' by {
        assert(is_digit(r@[i]));
    }
    no_leading_zero(n as nat);
    if n == 0 {
        assert(r@ =~= "0"@);
    }
}

proof fn no_leading_zero(n: nat)
    ensures
        decimal(n).len() > 0,
        n > 0 ==> decimal(n)[0] != '0',
    decreases n,
{
    if n >= 10 {
        no_leading_zero(n / 10);
    }
}

/// Digits stand for ten times what those before the last stand for, and the last
/// one more.
pub proof fn digits_count_by_tens(s: Seq<char>, d: nat)
    requires
        d < 10,
    ensures
        digits_value(Seq::empty()) == 0,
        digits_value(s.push(('0' as nat + d) as char)) == 10 * digits_value(s) + d,
{
    let t = s.push(('0' as nat + d) as char);
    assert(t.drop_last() =~= s);
}

/// Whether a text is a sign, or none, with digits behind it.
pub open spec fn is_signed(s: Seq<char>, sign: Seq<char>, digits: Seq<char>) -> bool {
    &&& s == sign + digits
    &&& sign == ""@ || sign == "+"@ || sign == "-"@
    &&& digits.len() > 0
    &&& forall|i: int| 0 <= i < digits.len() ==> '0' <= #[trigger] digits[i] <= '9'
}

/// A text of digits with a sign or none before them is read as the number they
/// stand for, negative behind a minus, exactly where that fits into 64 bits. No
/// other text is read.
pub proof fn signed_digits_are_read(s: &str, sign: Seq<char>, digits: Seq<char>, r: Option<i64>)
    requires
        call_ensures(parse_i64, (s,), r),
    ensures
        is_signed(s@, sign, digits) && sign != "-"@ ==> {
            &&& r is Some <==> digits_value(digits) <= 9223372036854775807
            &&& r is Some ==> r->0 == digits_value(digits)
        },
        is_signed(s@, sign, digits) && sign == "-"@ ==> {
            &&& r is Some <==> digits_value(digits) <= 9223372036854775808
            &&& r is Some ==> r->0 == -digits_value(digits)
        },
        r is Some ==> is_signed(s@, ""@, s@) || is_signed(s@, "+"@, s@.skip(1)) || is_signed(s@, "-"@, s@.skip(1)),
{
    reveal_strlit("");
    reveal_strlit("+");
    reveal_strlit("-");
    if is_signed(s@, sign, digits) {
        assert(forall|i: int| 0 <= i < digits.len() ==> is_digit(#[trigger] digits[i]));
        if sign == ""@ {
            assert(s@ =~= digits);
            assert(is_digit(digits[0]));
        } else {
            assert(s@[0] == sign[0]);
            assert(s@.skip(1) =~= digits);
        }
    }
    if r is Some {
        let d = if s@.len() > 0 && (s@[0] == '+' || s@[0] == '-') {
            s@.skip(1)
        } else {
            s@
        };
        assert(is_digits(d));
        assert forall|i: int| 0 <= i < d.len() implies '0' <= #[trigger] d[i] <= '9' by {
            assert(is_digit(d[i]));
        }
        if s@[0] == '+' {
            assert(s@ =~= "+"@ + d);
        } else if s@[0] == '-' {
            assert(s@ =~= "-"@ + d);
        } else {
            assert(s@ =~= ""@ + d);
        }
    }
}

} // verus!
