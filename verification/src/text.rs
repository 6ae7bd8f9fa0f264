use vstd::prelude::*;

verus! {

/// The whitespace bytes that surrounding-whitespace trimming removes.
pub open spec fn is_ws_byte(b: u8) -> bool {
    b == 0x20 || b == 0x09 || b == 0x0a || b == 0x0d || b == 0x0b || b == 0x0c
}

/// `s` without its trailing run of null padding bytes.
pub open spec fn strip_trailing_nulls(s: Seq<u8>) -> Seq<u8>
    decreases s.len(),
{
    if s.len() > 0 && s.last() == 0 {
        strip_trailing_nulls(s.drop_last())
    } else {
        s
    }
}

/// `s` without its trailing run of whitespace bytes.
pub open spec fn strip_trailing_ws(s: Seq<u8>) -> Seq<u8>
    decreases s.len(),
{
    if s.len() > 0 && is_ws_byte(s.last()) {
        strip_trailing_ws(s.drop_last())
    } else {
        s
    }
}

/// `s` without its leading run of whitespace bytes.
pub open spec fn strip_leading_ws(s: Seq<u8>) -> Seq<u8>
    decreases s.len(),
{
    if s.len() > 0 && is_ws_byte(s[0]) {
        strip_leading_ws(s.drop_first())
    } else {
        s
    }
}

/// `s` trimmed of surrounding whitespace.
pub open spec fn trim_ws_bytes(s: Seq<u8>) -> Seq<u8> {
    strip_leading_ws(strip_trailing_ws(s))
}

/// A packed text item, cleaned: trailing null padding stripped, then
/// surrounding whitespace trimmed.
pub open spec fn clean_bytes(s: Seq<u8>) -> Seq<u8> {
    trim_ws_bytes(strip_trailing_nulls(s))
}

/// The characters that `String::from_utf8_lossy` decodes from a byte
/// sequence. The result depends on the bytes alone.
pub uninterp spec fn utf8_lossy_of(bytes: Seq<u8>) -> Seq<char>;

/// Relies on `String::from_utf8_lossy`: the result is a function of the
/// bytes alone; an empty input stays empty; bytes below 128 are valid ASCII
/// and decode to the corresponding characters; invalid sequences are replaced
/// rather than failing, so decoding is total.
#[verifier::external_body]
pub(crate) fn bytes_to_text(bytes: &Vec<u8>) -> (r: String)
    ensures
        r@ == utf8_lossy_of(bytes@),
        bytes@.len() == 0 ==> r@.len() == 0,
        (forall|i: int| 0 <= i < bytes@.len() ==> bytes@[i] < 128) ==> r@ == bytes@.map_values(
            |b: u8| b as char,
        ),
{
    String::from_utf8_lossy(bytes.as_slice()).into_owned()
}

fn is_ws(b: u8) -> (r: bool)
    ensures
        r == is_ws_byte(b),
{
    b == 0x20 || b == 0x09 || b == 0x0a || b == 0x0d || b == 0x0b || b == 0x0c
}

/// Copies `buf[lo..hi]` trimmed of surrounding whitespace.
fn trim_ws_region(buf: &[u8], lo: usize, hi: usize) -> (r: Vec<u8>)
    requires
        lo <= hi <= buf@.len(),
    ensures
        r@ == trim_ws_bytes(buf@.subrange(lo as int, hi as int)),
{
    let ghost whole = buf@.subrange(lo as int, hi as int);
    let mut end = hi;
    while end > lo && is_ws(buf[end - 1])
        invariant
            lo <= end <= hi <= buf@.len(),
            strip_trailing_ws(whole) == strip_trailing_ws(
                buf@.subrange(lo as int, end as int),
            ),
        decreases end,
    {
        proof {
            let cur = buf@.subrange(lo as int, end as int);
            assert(cur.drop_last() =~= buf@.subrange(lo as int, end - 1 as int));
        }
        end = end - 1;
    }
    proof {
        let cur = buf@.subrange(lo as int, end as int);
        assert(strip_trailing_ws(cur) == cur);
    }
    let ghost stripped = buf@.subrange(lo as int, end as int);
    let mut start = lo;
    while start < end && is_ws(buf[start])
        invariant
            lo <= start <= end <= buf@.len(),
            stripped == buf@.subrange(lo as int, end as int),
            strip_leading_ws(stripped) == strip_leading_ws(
                buf@.subrange(start as int, end as int),
            ),
        decreases end - start,
    {
        proof {
            let cur = buf@.subrange(start as int, end as int);
            assert(cur.drop_first() =~= buf@.subrange(start + 1 as int, end as int));
        }
        start = start + 1;
    }
    proof {
        let cur = buf@.subrange(start as int, end as int);
        assert(strip_leading_ws(cur) == cur);
    }
    let mut out: Vec<u8> = Vec::new();
    let mut i = start;
    while i < end
        invariant
            start <= i <= end <= buf@.len(),
            out@ == buf@.subrange(start as int, i as int),
        decreases end - i,
    {
        out.push(buf[i]);
        proof {
            assert(buf@.subrange(start as int, i + 1 as int) =~= buf@.subrange(
                start as int,
                i as int,
            ).push(buf@[i as int]));
        }
        i = i + 1;
    }
    proof {
        assert(out@ =~= trim_ws_bytes(whole));
    }
    out
}

/// Copies `buf[lo..hi]` cleaned: trailing nulls stripped, whitespace trimmed.
fn clean_region(buf: &[u8], lo: usize, hi: usize) -> (r: Vec<u8>)
    requires
        lo <= hi <= buf@.len(),
    ensures
        r@ == clean_bytes(buf@.subrange(lo as int, hi as int)),
{
    let ghost whole = buf@.subrange(lo as int, hi as int);
    let mut end = hi;
    while end > lo && buf[end - 1] == 0
        invariant
            lo <= end <= hi <= buf@.len(),
            strip_trailing_nulls(whole) == strip_trailing_nulls(
                buf@.subrange(lo as int, end as int),
            ),
        decreases end,
    {
        proof {
            let cur = buf@.subrange(lo as int, end as int);
            assert(cur.drop_last() =~= buf@.subrange(lo as int, end - 1 as int));
        }
        end = end - 1;
    }
    proof {
        let cur = buf@.subrange(lo as int, end as int);
        assert(strip_trailing_nulls(cur) == cur);
    }
    trim_ws_region(buf, lo, end)
}

/// Decodes one packed text item out of `buf[lo..hi]`: trailing null padding
/// is stripped, surrounding whitespace trimmed, and the remaining bytes are
/// decoded as text with lossy replacement.
pub fn decode_text_item(buf: &[u8], lo: usize, hi: usize) -> (r: String)
    requires
        lo <= hi <= buf@.len(),
    ensures
        r@ == utf8_lossy_of(clean_bytes(buf@.subrange(lo as int, hi as int))),
{
    let cleaned = clean_region(buf, lo, hi);
    bytes_to_text(&cleaned)
}

/// Index of the first occurrence of `sep` in `s`, or `s.len()` when absent.
pub open spec fn find_byte(s: Seq<u8>, sep: u8) -> int
    decreases s.len(),
{
    if s.len() == 0 {
        0
    } else if s[0] == sep {
        0
    } else {
        1 + find_byte(s.drop_first(), sep)
    }
}

/// `find_byte` returns the index of the first occurrence, or the length.
pub proof fn lemma_find_byte(s: Seq<u8>, sep: u8)
    ensures
        0 <= find_byte(s, sep) <= s.len(),
        find_byte(s, sep) < s.len() ==> s[find_byte(s, sep)] == sep,
        forall|j: int| 0 <= j < find_byte(s, sep) ==> s[j] != sep,
    decreases s.len(),
{
    if s.len() == 0 || s[0] == sep {
    } else {
        lemma_find_byte(s.drop_first(), sep);
        assert forall|j: int| 0 <= j < find_byte(s, sep) implies s[j] != sep by {
            if j > 0 {
                assert(s[j] == s.drop_first()[j - 1]);
            }
        }
    }
}

/// `s` split on `sep`: the separator-free pieces, in order, with the
/// separators dropped. A string without the separator is one piece; each
/// separator opens a new piece, so adjacent separators yield empty pieces.
pub open spec fn split_bytes(s: Seq<u8>, sep: u8) -> Seq<Seq<u8>>
    decreases s.len(),
{
    let i = find_byte(s, sep);
    if 0 <= i < s.len() {
        seq![s.take(i)] + split_bytes(s.skip(i + 1), sep)
    } else {
        seq![s]
    }
}

/// Splits `buf[lo..]` on the separator byte; each piece is trimmed of
/// surrounding whitespace and decoded as text.
fn split_region(buf: &[u8], lo: usize, sep: u8) -> (r: Vec<String>)
    requires
        lo <= buf@.len(),
    ensures
        r@.len() == split_bytes(buf@.skip(lo as int), sep).len(),
        forall|k: int|
            0 <= k < r@.len() ==> r@[k]@ == utf8_lossy_of(
                trim_ws_bytes(#[trigger] split_bytes(buf@.skip(lo as int), sep)[k]),
            ),
    decreases buf@.len() - lo,
{
    let ghost s = buf@.skip(lo as int);
    let n = buf.len();
    let mut i = lo;
    while i < n && buf[i] != sep
        invariant
            lo <= i <= n,
            n == buf@.len(),
            forall|j: int| lo <= j < i ==> buf@[j] != sep,
        decreases n - i,
    {
        i = i + 1;
    }
    proof {
        lemma_find_byte(s, sep);
        let f = find_byte(s, sep);
        assert(forall|j: int| 0 <= j < i - lo ==> s[j] == buf@[j + lo] && s[j] != sep);
        if i < n {
            assert(s[i - lo] == sep);
            assert(f == i - lo);
        } else {
            assert(f == s.len()) by {
                if f < s.len() {
                    assert(s[f] == sep);
                    assert(buf@[f + lo] != sep);
                }
            }
        }
    }
    let trimmed = trim_ws_region(buf, lo, i);
    let piece = bytes_to_text(&trimmed);
    proof {
        assert(buf@.subrange(lo as int, i as int) =~= s.take(i - lo));
    }
    if i == n {
        let mut out: Vec<String> = Vec::new();
        out.push(piece);
        proof {
            assert(s.take(i - lo) =~= s);
            assert(split_bytes(s, sep) =~= seq![s]);
        }
        out
    } else {
        let mut out = split_region(buf, i + 1, sep);
        let ghost rest = out@;
        out.insert(0, piece);
        proof {
            let f = find_byte(s, sep);
            assert(s.skip(f + 1) =~= buf@.skip(i + 1 as int));
            assert(out@ =~= seq![piece] + rest);
            let pieces = split_bytes(s, sep);
            assert(pieces == seq![s.take(f)] + split_bytes(s.skip(f + 1), sep));
            assert(piece@ == utf8_lossy_of(trim_ws_bytes(pieces[0])));
            assert(forall|k: int|
                1 <= k < pieces.len() ==> #[trigger] pieces[k] == split_bytes(
                    buf@.skip(i + 1 as int),
                    sep,
                )[k - 1]);
        }
        out
    }
}

/// The byte pieces that `split_string` decodes, whitespace-trimmed: the
/// byte-level split on an ASCII separator. A separator outside ASCII never
/// occurs as a single byte of well-formed text, so the whole input is one
/// piece.
pub open spec fn split_view(s: Seq<char>, sep: char) -> Seq<Seq<u8>> {
    let bs = vstd::utf8::encode_utf8(s);
    if (sep as u32) < 128 {
        split_bytes(bs, sep as u8)
    } else {
        seq![bs]
    }
}

/// Splits a delimiter-joined text field on the separator, trimming each
/// piece of surrounding whitespace.
pub fn split_string(input: String, separator: char) -> (r: Vec<String>)
    ensures
        r@.len() == split_view(input@, separator).len(),
        forall|k: int|
            0 <= k < r@.len() ==> r@[k]@ == utf8_lossy_of(
                trim_ws_bytes(#[trigger] split_view(input@, separator)[k]),
            ),
{
    let bs = input.as_str().as_bytes();
    if (separator as u32) < 128 {
        let r = split_region(bs, 0, separator as u8);
        proof {
            assert(bs@.skip(0) =~= bs@);
        }
        r
    } else {
        let trimmed = trim_ws_region(bs, 0, bs.len());
        proof {
            assert(bs@.subrange(0, bs@.len() as int) =~= bs@);
        }
        let piece = bytes_to_text(&trimmed);
        let mut out: Vec<String> = Vec::new();
        out.push(piece);
        out
    }
}

/// The decoded pieces that `split_string` returns, as character sequences.
pub open spec fn split_pieces_model(s: Seq<char>, sep: char) -> Seq<Seq<char>> {
    Seq::new(
        split_view(s, sep).len(),
        |k: int| utf8_lossy_of(trim_ws_bytes(split_view(s, sep)[k])),
    )
}

/// The character-sequence view of a cleaned String: what `trim_null_bytes`
/// returns for it.
pub open spec fn trimmed_view(s: Seq<char>) -> Seq<char> {
    utf8_lossy_of(clean_bytes(vstd::utf8::encode_utf8(s)))
}

/// The whitespace characters that trimming removes, as characters.
pub open spec fn is_ws_char(c: char) -> bool {
    c == ' ' || c == '\t' || c == '\n' || c == '\r' || c == '\u{b}' || c == '\u{c}'
}

/// `s` without its trailing run of null characters.
pub open spec fn strip_trailing_nulls_chars(s: Seq<char>) -> Seq<char>
    decreases s.len(),
{
    if s.len() > 0 && s.last() == '\0' {
        strip_trailing_nulls_chars(s.drop_last())
    } else {
        s
    }
}

/// `s` without its trailing run of whitespace characters.
pub open spec fn strip_trailing_ws_chars(s: Seq<char>) -> Seq<char>
    decreases s.len(),
{
    if s.len() > 0 && is_ws_char(s.last()) {
        strip_trailing_ws_chars(s.drop_last())
    } else {
        s
    }
}

/// `s` without its leading run of whitespace characters.
pub open spec fn strip_leading_ws_chars(s: Seq<char>) -> Seq<char>
    decreases s.len(),
{
    if s.len() > 0 && is_ws_char(s[0]) {
        strip_leading_ws_chars(s.drop_first())
    } else {
        s
    }
}

/// A text item cleaned at the character level: trailing null padding
/// stripped, then surrounding whitespace trimmed.
pub open spec fn clean_chars(s: Seq<char>) -> Seq<char> {
    strip_leading_ws_chars(strip_trailing_ws_chars(strip_trailing_nulls_chars(s)))
}

/// On ASCII text, stripping trailing nulls byte-wise and character-wise
/// agree, one byte per character.
proof fn lemma_strip_nulls_ascii(s: Seq<char>)
    requires
        vstd::utf8::is_ascii_chars(s),
    ensures
        vstd::utf8::is_ascii_chars(strip_trailing_nulls_chars(s)),
        strip_trailing_nulls(vstd::utf8::encode_utf8(s)) =~= vstd::utf8::encode_utf8(
            strip_trailing_nulls_chars(s),
        ),
    decreases s.len(),
{
    vstd::utf8::is_ascii_chars_encode_utf8(s);
    if s.len() > 0 {
        let t = s.drop_last();
        assert(vstd::utf8::is_ascii_chars(t));
        vstd::utf8::is_ascii_chars_encode_utf8(t);
        assert(vstd::utf8::encode_utf8(s).drop_last() =~= vstd::utf8::encode_utf8(t));
        assert(vstd::utf8::encode_utf8(s).last() == s.last() as u8);
        if s.last() == '\0' {
            lemma_strip_nulls_ascii(t);
        }
    } else {
        assert(vstd::utf8::encode_utf8(s) =~= Seq::<u8>::empty());
    }
}

/// On ASCII text, stripping trailing whitespace byte-wise and character-wise
/// agree.
proof fn lemma_strip_trailing_ws_ascii(s: Seq<char>)
    requires
        vstd::utf8::is_ascii_chars(s),
    ensures
        vstd::utf8::is_ascii_chars(strip_trailing_ws_chars(s)),
        strip_trailing_ws(vstd::utf8::encode_utf8(s)) =~= vstd::utf8::encode_utf8(
            strip_trailing_ws_chars(s),
        ),
    decreases s.len(),
{
    vstd::utf8::is_ascii_chars_encode_utf8(s);
    if s.len() > 0 {
        let t = s.drop_last();
        assert(vstd::utf8::is_ascii_chars(t));
        vstd::utf8::is_ascii_chars_encode_utf8(t);
        assert(vstd::utf8::encode_utf8(s).drop_last() =~= vstd::utf8::encode_utf8(t));
        assert(vstd::utf8::encode_utf8(s).last() == s.last() as u8);
        assert(is_ws_byte(s.last() as u8) == is_ws_char(s.last()));
        if is_ws_char(s.last()) {
            lemma_strip_trailing_ws_ascii(t);
        }
    } else {
        assert(vstd::utf8::encode_utf8(s) =~= Seq::<u8>::empty());
    }
}

/// On ASCII text, stripping leading whitespace byte-wise and character-wise
/// agree.
proof fn lemma_strip_leading_ws_ascii(s: Seq<char>)
    requires
        vstd::utf8::is_ascii_chars(s),
    ensures
        vstd::utf8::is_ascii_chars(strip_leading_ws_chars(s)),
        strip_leading_ws(vstd::utf8::encode_utf8(s)) =~= vstd::utf8::encode_utf8(
            strip_leading_ws_chars(s),
        ),
    decreases s.len(),
{
    vstd::utf8::is_ascii_chars_encode_utf8(s);
    if s.len() > 0 {
        let t = s.drop_first();
        assert(vstd::utf8::is_ascii_chars(t));
        vstd::utf8::is_ascii_chars_encode_utf8(t);
        assert(vstd::utf8::encode_utf8(s).drop_first() =~= vstd::utf8::encode_utf8(t));
        assert(vstd::utf8::encode_utf8(s)[0] == s[0] as u8);
        assert(is_ws_byte(s[0] as u8) == is_ws_char(s[0]));
        if is_ws_char(s[0]) {
            lemma_strip_leading_ws_ascii(t);
        }
    } else {
        assert(vstd::utf8::encode_utf8(s) =~= Seq::<u8>::empty());
    }
}

/// On ASCII text, byte-level cleaning is the UTF-8 encoding of
/// character-level cleaning.
pub proof fn lemma_clean_bytes_of_ascii(s: Seq<char>)
    requires
        vstd::utf8::is_ascii_chars(s),
    ensures
        vstd::utf8::is_ascii_chars(clean_chars(s)),
        clean_bytes(vstd::utf8::encode_utf8(s)) =~= vstd::utf8::encode_utf8(clean_chars(s)),
{
    lemma_strip_nulls_ascii(s);
    lemma_strip_trailing_ws_ascii(strip_trailing_nulls_chars(s));
    lemma_strip_leading_ws_ascii(strip_trailing_ws_chars(strip_trailing_nulls_chars(s)));
}

/// Strips trailing null padding from a string, then trims surrounding
/// whitespace. On ASCII input the result is the character-level cleaning of
/// the input itself.
pub fn trim_null_bytes(input: String) -> (r: String)
    ensures
        r@ == trimmed_view(input@),
        vstd::utf8::is_ascii_chars(input@) ==> r@ == clean_chars(input@),
{
    let bs = input.as_str().as_bytes();
    let cleaned = clean_region(bs, 0, bs.len());
    proof {
        assert(bs@.subrange(0, bs@.len() as int) =~= bs@);
    }
    let r = bytes_to_text(&cleaned);
    proof {
        if vstd::utf8::is_ascii_chars(input@) {
            lemma_clean_bytes_of_ascii(input@);
            let cc = clean_chars(input@);
            vstd::utf8::is_ascii_chars_encode_utf8(cc);
            assert(forall|i: int| 0 <= i < cleaned@.len() ==> cleaned@[i] < 128) by {
                assert(forall|i: int|
                    0 <= i < cc.len() ==> #[trigger] vstd::utf8::encode_utf8(cc)[i] == cc[i] as u8
                        && (cc[i] as u8) < 128);
            }
            assert(r@ =~= cc);
        }
    }
    r
}

} // verus!
