//! Which feed documents `feed_rs` is handed.
//!
//! `feed_rs::parser::parse` panics on some documents: in its parser of media
//! times (the text of an iTunes `duration`, the `start`, `end` and `time`
//! attributes of MediaRSS) when a number has too many digits or digits outside
//! ASCII; in its splitting of a person's name from an e-mail address, when the
//! address stands next to a character outside ASCII (a slice then cuts that
//! character); and in `quick_xml` when an XML declaration switches the
//! encoding too late. `plain_feed_bytes` follows the document as `quick_xml`
//! tokenizes it and refuses the texts and values on which one of these panics
//! could be reached, together with what that reading does not follow (see its
//! doc comment). It is a sufficient condition: it refuses a few documents on
//! which `feed_rs` would not panic, such as a person's name holding both an
//! address and a character outside ASCII.

use vstd::prelude::*;

use crate::text::chars_of;

verus! {

/// The bytes of a string of ASCII characters.
pub open spec fn ascii_bytes(s: Seq<char>) -> Seq<u8> {
    s.map_values(|c: char| c as u8)
}

/// Whether `p` occurs in `b` at offset `i`.
pub open spec fn bytes_at(b: Seq<u8>, i: int, p: Seq<u8>) -> bool {
    0 <= i && i + p.len() <= b.len() && b.subrange(i, i + p.len()) == p
}

/// Whether `p` occurs somewhere in `b`.
pub open spec fn holds_bytes(b: Seq<u8>, p: Seq<u8>) -> bool {
    exists|i: int| bytes_at(b, i, p)
}

/// XML white space.
pub open spec fn is_xml_space(c: u8) -> bool {
    c == 9 || c == 10 || c == 13 || c == 32
}

/// A byte that may stand in the local part of an e-mail address as `feed_rs`
/// recognises one: `A-Z`, `a-z`, `0-9`, `.`, `_`, `%`, `+`, `-`.
pub open spec fn local_part_byte(c: u8) -> bool {
    (65 <= c <= 90) || (97 <= c <= 122) || (48 <= c <= 57) || c == 46 || c == 95 || c == 37 || c == 43
        || c == 45
}

/// The value of a digit in base `radix` (10 or 16; hexadecimal letters in
/// either case), if `c` is one.
pub open spec fn digit_value(c: u8, radix: nat) -> Option<nat> {
    if 48 <= c <= 57 {
        Some((c - 48) as nat)
    } else if radix == 16 && 97 <= c <= 102 {
        Some((c - 87) as nat)
    } else if radix == 16 && 65 <= c <= 70 {
        Some((c - 55) as nat)
    } else {
        None
    }
}

/// The number that a run of digits spells in base `radix`.
pub open spec fn digits_value(d: Seq<u8>, radix: nat) -> nat
    decreases d.len(),
{
    if d.len() == 0 {
        0
    } else {
        digits_value(d.drop_last(), radix) * radix + match digit_value(d.last(), radix) {
            Some(v) => v,
            None => 0,
        }
    }
}

/// The end of the run of digits in base `radix` that starts at `j`.
pub open spec fn digits_end(b: Seq<u8>, j: int, radix: nat) -> int
    decreases b.len() - j,
{
    if 0 <= j < b.len() && digit_value(b[j], radix) is Some {
        digits_end(b, j + 1, radix)
    } else {
        j
    }
}

/// Upper-case ASCII letters to lower case; every other byte unchanged.
pub open spec fn lower(c: u8) -> u8 {
    if 65 <= c <= 90 { (c + 32) as u8 } else { c }
}

/// The kind of a decoded character, as far as the panics matter: 0 another
/// ASCII character, 1 a letter or one of `. _ % + -`, 2 a digit, 3 `@`,
/// 4 a character outside ASCII (each byte of one in UTF-8 counts as one).
pub open spec fn class_of(v: nat) -> u8 {
    if v >= 128 {
        4
    } else if v == 64 {
        3
    } else if 48 <= v <= 57 {
        2
    } else if local_part_byte(v as u8) {
        1
    } else {
        0
    }
}

/// The state of a reading of an XML document: the kind of the text being
/// read (0 any, 1 the text of an element from which `feed_rs` takes a
/// person's name, 2 the text of a `duration` element), whether a CDATA section
/// is open, and what that text held so far: whether its last character may
/// begin an e-mail address, whether an `@` followed such a character, whether
/// a character outside ASCII occurred, and the length of the current run of
/// digits.
#[derive(Clone, Copy)]
pub struct Scan {
    pub node: u8,
    pub cdata: bool,
    pub prev_local: bool,
    pub email_at: bool,
    pub wide: bool,
    pub run: u64,
}

/// A fresh text of kind `node`.
pub open spec fn fresh(node: u8) -> Scan {
    Scan { node, cdata: false, prev_local: false, email_at: false, wide: false, run: 0 }
}

/// The state after one more decoded character of kind `c`; `None` where the
/// text becomes one on which `feed_rs` may panic: a person's text with both an
/// address-like `@` and a character outside ASCII (the slice next to the
/// address can then cut a character), or a duration with a character outside
/// ASCII or more than 15 digits in a row (the number parse can then fail or
/// overflow).
pub open spec fn feed(s: Scan, c: u8) -> Option<Scan> {
    let local = c == 1 || c == 2;
    if s.node == 1 {
        let email = s.email_at || (c == 3 && s.prev_local);
        let wide = s.wide || c == 4;
        if email && wide {
            None
        } else {
            Some(Scan { node: s.node, cdata: s.cdata, prev_local: local, email_at: email, wide, run: s.run })
        }
    } else if s.node == 2 {
        if c == 4 || (c == 2 && s.run >= 15) {
            None
        } else {
            Some(
                Scan {
                    node: s.node,
                    cdata: s.cdata,
                    prev_local: local,
                    email_at: s.email_at,
                    wide: s.wide,
                    run: if c == 2 { (s.run + 1) as u64 } else { 0 },
                },
            )
        }
    } else {
        Some(s)
    }
}

/// The `>` that closes a comment opened before `j`: the first one at or
/// after `j` preceded by `--` (the end of the document if there is none).
pub open spec fn comment_end(b: Seq<u8>, j: int) -> int
    decreases b.len() - j,
{
    if j < 2 || j >= b.len() {
        b.len() as int
    } else if b[j] == 62 && b[j - 1] == 45 && b[j - 2] == 45 {
        j
    } else {
        comment_end(b, j + 1)
    }
}

/// The `>` that closes a processing instruction: the first one at or after
/// `j` preceded by `?`.
pub open spec fn pi_end(b: Seq<u8>, j: int) -> int
    decreases b.len() - j,
{
    if j < 1 || j >= b.len() {
        b.len() as int
    } else if b[j] == 62 && b[j - 1] == 63 {
        j
    } else {
        pi_end(b, j + 1)
    }
}

/// The `>` that closes a tag: the first one at or after `j` outside quotes,
/// `q` being the quote open at `j` (0 for none).
pub open spec fn tag_end(b: Seq<u8>, j: int, q: u8) -> int
    decreases b.len() - j,
{
    if j < 0 || j >= b.len() {
        b.len() as int
    } else if q == 0 && b[j] == 62 {
        j
    } else {
        let c = b[j];
        tag_end(b, j + 1, if q == 0 && (c == 34 || c == 39) { c } else if q != 0 && c == q { 0 } else { q })
    }
}

/// The `>` that closes a document type declaration without an internal
/// subset; -1 when an internal subset (`[`) opens first.
pub open spec fn dtd_end(b: Seq<u8>, j: int, q: u8) -> int
    decreases b.len() - j,
{
    if j < 0 || j >= b.len() {
        b.len() as int
    } else if q == 0 && b[j] == 62 {
        j
    } else if q == 0 && b[j] == 91 {
        -1
    } else {
        let c = b[j];
        dtd_end(b, j + 1, if q == 0 && (c == 34 || c == 39) { c } else if q != 0 && c == q { 0 } else { q })
    }
}

/// The end of a reference started before `j`: the first `;`, `&` or `<`.
pub open spec fn ref_end(b: Seq<u8>, j: int) -> int
    decreases b.len() - j,
{
    if j < 0 || j >= b.len() {
        b.len() as int
    } else if b[j] == 59 || b[j] == 38 || b[j] == 60 {
        j
    } else {
        ref_end(b, j + 1)
    }
}

/// The first `x` at or after `j`.
pub open spec fn find_byte(b: Seq<u8>, j: int, x: u8) -> int
    decreases b.len() - j,
{
    if j < 0 || j >= b.len() {
        b.len() as int
    } else if b[j] == x {
        j
    } else {
        find_byte(b, j + 1, x)
    }
}

/// The first white space at or after `j` and before `lim` (else `lim`).
pub open spec fn ws_end(b: Seq<u8>, j: int, lim: int) -> int
    decreases lim - j,
{
    if j < 0 || j >= lim || j >= b.len() {
        lim
    } else if is_xml_space(b[j]) {
        j
    } else {
        ws_end(b, j + 1, lim)
    }
}

/// The first byte at or after `j` and before `lim` that is no white space (else `lim`).
pub open spec fn first_non_ws(b: Seq<u8>, j: int, lim: int) -> int
    decreases lim - j,
{
    if j < 0 || j >= lim || j >= b.len() {
        lim
    } else if !is_xml_space(b[j]) {
        j
    } else {
        first_non_ws(b, j + 1, lim)
    }
}

/// The last byte at or before `j` that is no white space (-1 if none).
pub open spec fn last_non_ws(b: Seq<u8>, j: int) -> int
    decreases j + 1,
{
    if j < 0 || j >= b.len() {
        -1
    } else if !is_xml_space(b[j]) {
        j
    } else {
        last_non_ws(b, j - 1)
    }
}

/// The quote at `q` opens the value of an attribute named `w`: before it
/// stand `w`, `=` and white space, and before `w` white space or a quote.
pub open spec fn named(b: Seq<u8>, q: int, w: Seq<u8>) -> bool {
    let e = last_non_ws(b, q - 1);
    let p = last_non_ws(b, e - 1);
    let s = p - w.len() + 1;
    &&& e >= 0
    &&& b[e] == 61
    &&& p >= 0
    &&& s >= 1
    &&& bytes_at(b, s, w)
    &&& (is_xml_space(b[s - 1]) || b[s - 1] == 34 || b[s - 1] == 39)
}

/// An attribute value that `feed_rs` reads as a media time (`start`, `end`, `time`).
pub open spec fn timing_attr(b: Seq<u8>, q: int) -> bool {
    named(b, q, ascii_bytes("start"@)) || named(b, q, ascii_bytes("end"@)) || named(b, q, ascii_bytes("time"@))
}

/// The raw value from `j` to `e` is a media time that parses without panic:
/// no reference, no byte outside ASCII, at most 15 digits in a row.
pub open spec fn npt_raw_ok(b: Seq<u8>, j: int, e: int, run: nat) -> bool
    decreases e - j,
{
    if j < 0 || j >= e || j >= b.len() {
        true
    } else if b[j] == 38 || b[j] >= 128 {
        false
    } else if 48 <= b[j] <= 57 {
        run < 15 && npt_raw_ok(b, j + 1, e, run + 1)
    } else {
        npt_raw_ok(b, j + 1, e, 0)
    }
}

/// The quoted values from `j` to `k` (a tag's content) of media time
/// attributes parse without panic.
pub open spec fn tag_attrs_ok(b: Seq<u8>, j: int, k: int) -> bool
    decreases k - j,
{
    if j < 0 || j >= k || j >= b.len() {
        true
    } else if b[j] == 34 || b[j] == 39 {
        let c = find_byte(b, j + 1, b[j]);
        if c <= j {
            false
        } else if c + 1 >= k {
            timing_attr(b, j) ==> npt_raw_ok(b, j + 1, c, 0)
        } else {
            (timing_attr(b, j) ==> npt_raw_ok(b, j + 1, c, 0)) && tag_attrs_ok(b, c + 1, k)
        }
    } else {
        tag_attrs_ok(b, j + 1, k)
    }
}

/// The bytes from `s` to `e` are `p`, ignoring the case of ASCII letters.
pub open spec fn label_is(b: Seq<u8>, s: int, e: int, p: Seq<u8>) -> bool {
    &&& 0 <= s
    &&& e <= b.len()
    &&& e - s == p.len()
    &&& forall|m: int| 0 <= m < p.len() ==> lower(#[trigger] b[s + m]) == p[m]
}

/// An encoding label (from `s` to `e`) that names UTF-8.
pub open spec fn utf8_label(b: Seq<u8>, s: int, e: int) -> bool {
    let s2 = first_non_ws(b, s, e);
    let e2 = last_non_ws(b, e - 1) + 1;
    &&& s2 < e2
    &&& label_is(b, s2, e2, ascii_bytes("utf-8"@)) || label_is(b, s2, e2, ascii_bytes("utf8"@)) || label_is(
        b,
        s2,
        e2,
        ascii_bytes("unicode-1-1-utf-8"@),
    )
}

/// In the content (from `j` to `k`) of an XML declaration, an `encoding`
/// attribute, if any, names UTF-8.
pub open spec fn decl_attrs_ok(b: Seq<u8>, j: int, k: int) -> bool
    decreases k - j,
{
    if j < 0 || j >= k || j >= b.len() {
        true
    } else if b[j] == 34 || b[j] == 39 {
        let c = find_byte(b, j + 1, b[j]);
        if c <= j {
            false
        } else if c + 1 >= k {
            named(b, j, ascii_bytes("encoding"@)) ==> utf8_label(b, j + 1, c)
        } else {
            (named(b, j, ascii_bytes("encoding"@)) ==> utf8_label(b, j + 1, c)) && decl_attrs_ok(b, c + 1, k)
        }
    } else {
        decl_attrs_ok(b, j + 1, k)
    }
}

/// The element name from `s` to `e` has the local name (after the last `:`) `w`.
pub open spec fn local_name_is(b: Seq<u8>, s: int, e: int, w: Seq<u8>) -> bool {
    ||| e - s == w.len() && bytes_at(b, s, w)
    ||| e - s > w.len() && bytes_at(b, e - w.len(), w) && b[e - w.len() - 1] == 58
}

/// The element names from whose text `feed_rs` takes a person's name and address.
pub open spec fn person_name(b: Seq<u8>, s: int, e: int) -> bool {
    ||| local_name_is(b, s, e, ascii_bytes("author"@))
    ||| local_name_is(b, s, e, ascii_bytes("managingEditor"@))
    ||| local_name_is(b, s, e, ascii_bytes("webMaster"@))
    ||| local_name_is(b, s, e, ascii_bytes("creator"@))
    ||| local_name_is(b, s, e, ascii_bytes("name"@))
}

/// A start tag at `i`: the state after it, or `None` where its media time
/// attributes are unsafe or it is not closed.
pub open spec fn start_tag_step(b: Seq<u8>, i: int) -> Option<(int, Scan)> {
    let k = tag_end(b, i + 1, 0);
    if k >= b.len() || k < i + 1 || !tag_attrs_ok(b, i + 1, k) {
        None
    } else {
        let sc = b[k - 1] == 47;
        let lim = if sc { k - 1 } else { k };
        let ne = ws_end(b, i + 1, lim);
        let node: u8 = if sc {
            0
        } else if person_name(b, i + 1, ne) {
            1
        } else if local_name_is(b, i + 1, ne, ascii_bytes("duration"@)) {
            2
        } else {
            0
        };
        Some((k + 1, fresh(node)))
    }
}

/// One of the five predefined entities (`amp`, `lt`, `gt`, `quot`, `apos`) from `s` to `e`.
pub open spec fn predefined_entity(b: Seq<u8>, s: int, e: int) -> bool {
    ||| e - s == 3 && bytes_at(b, s, ascii_bytes("amp"@))
    ||| e - s == 2 && bytes_at(b, s, ascii_bytes("lt"@))
    ||| e - s == 2 && bytes_at(b, s, ascii_bytes("gt"@))
    ||| e - s == 4 && bytes_at(b, s, ascii_bytes("quot"@))
    ||| e - s == 4 && bytes_at(b, s, ascii_bytes("apos"@))
}

/// A reference at `i` inside a text that matters: the state after the
/// character it stands for; `None` where it is not closed by `;`, is a
/// malformed character reference, or names an entity other than the five
/// predefined ones.
pub open spec fn ref_step(b: Seq<u8>, i: int, s: Scan) -> Option<(int, Scan)> {
    let k = ref_end(b, i + 1);
    if k >= b.len() || b[k] != 59 {
        None
    } else if b[i + 1] == 35 {
        let hex = b[i + 2] == 120;
        let r: nat = if hex { 16 } else { 10 };
        let j = if hex { i + 3 } else { i + 2 };
        if j >= k || digits_end(b, j, r) != k {
            None
        } else {
            match feed(s, class_of(digits_value(b.subrange(j, k), r))) {
                Some(t) => Some((k + 1, t)),
                None => None,
            }
        }
    } else if predefined_entity(b, i + 1, k) {
        match feed(s, 0) {
            Some(t) => Some((k + 1, t)),
            None => None,
        }
    } else {
        None
    }
}

/// An XML declaration starts at `i`.
pub open spec fn decl_at(b: Seq<u8>, i: int) -> bool {
    bytes_at(b, i, ascii_bytes("<?xml"@)) && i + 5 < b.len() && (is_xml_space(b[i + 5]) || b[i + 5] == 63)
}

/// One step of the reading at `i`: the next position and state, or `None`
/// where the document is refused.
pub open spec fn step(b: Seq<u8>, i: int, s: Scan) -> Option<(int, Scan)> {
    let c = b[i];
    if s.cdata {
        if bytes_at(b, i, ascii_bytes("]]>"@)) {
            Some((i + 3, Scan { node: s.node, cdata: false, prev_local: s.prev_local, email_at: s.email_at, wide: s.wide, run: s.run }))
        } else {
            match feed(s, class_of(c as nat)) {
                Some(t) => Some((i + 1, t)),
                None => None,
            }
        }
    } else if c == 60 {
        if bytes_at(b, i, ascii_bytes("<!--"@)) {
            let k = comment_end(b, i + 4);
            if k >= b.len() || k < i || k - i < 6 { None } else { Some((k + 1, s)) }
        } else if bytes_at(b, i, ascii_bytes("<![CDATA["@)) {
            Some((i + 9, Scan { node: s.node, cdata: true, prev_local: s.prev_local, email_at: s.email_at, wide: s.wide, run: s.run }))
        } else if bytes_at(b, i, ascii_bytes("<!D"@)) || bytes_at(b, i, ascii_bytes("<!d"@)) {
            let k = dtd_end(b, i + 2, 0);
            if k < 0 || k >= b.len() { None } else { Some((k + 1, s)) }
        } else if bytes_at(b, i, ascii_bytes("<!"@)) {
            None
        } else if bytes_at(b, i, ascii_bytes("<?"@)) {
            let k = pi_end(b, i + 2);
            if k >= b.len() || k <= i + 2 {
                None
            } else if decl_at(b, i) && !decl_attrs_ok(b, i + 5, k - 1) {
                None
            } else {
                Some((k + 1, s))
            }
        } else if bytes_at(b, i, ascii_bytes("</"@)) {
            let k = tag_end(b, i + 1, 0);
            if k >= b.len() { None } else { Some((k + 1, fresh(0))) }
        } else {
            start_tag_step(b, i)
        }
    } else if c == 38 && s.node != 0 {
        ref_step(b, i, s)
    } else {
        match feed(s, class_of(c as nat)) {
            Some(t) => Some((i + 1, t)),
            None => None,
        }
    }
}

/// The reading of the document from `i` on, in state `s`, meets nothing on
/// which `feed_rs` may panic.
pub open spec fn walk(b: Seq<u8>, i: int, s: Scan) -> bool
    decreases b.len() - i,
{
    if i < 0 || i >= b.len() {
        true
    } else {
        match step(b, i, s) {
            None => false,
            Some((j, t)) => j > i && (j >= b.len() || walk(b, j, t)),
        }
    }
}

/// `feed_rs` reads the document as JSON: a `{` comes before any `<`.
pub open spec fn json_first(b: Seq<u8>) -> bool {
    exists|f: int| 0 <= f < b.len() && b[f] == 123 && forall|g: int| 0 <= g < f ==> b[g] != 60 && b[g] != 123
}

/// A JSON document on which the name parsing cannot panic: no `\u` escape,
/// and not both an `@` after a letter, digit or one of `. _ % + -` and a byte
/// outside ASCII.
pub open spec fn json_plain(b: Seq<u8>) -> bool {
    &&& !holds_bytes(b, ascii_bytes("\\u"@))
    &&& !((exists|i: int| 1 <= i < b.len() && #[trigger] b[i] == 64 && local_part_byte(b[i - 1])) && (exists|i: int|
        0 <= i < b.len() && b[i] >= 128))
}

/// The document does not start like UTF-16 (a byte order mark, or `<?` with
/// zero bytes between), so `quick_xml` reads it as UTF-8.
pub open spec fn not_utf16(b: Seq<u8>) -> bool {
    &&& !(b.len() >= 2 && b[0] == 254 && b[1] == 255)
    &&& !(b.len() >= 2 && b[0] == 255 && b[1] == 254)
    &&& !(b.len() >= 4 && b[0] == 0 && b[1] == 60 && b[2] == 0 && b[3] == 63)
    &&& !(b.len() >= 4 && b[0] == 60 && b[1] == 0 && b[2] == 63 && b[3] == 0)
}

/// A feed document on which `feed_rs::parser::parse` cannot reach one of its
/// panics. For an XML document (read as UTF-8, and declaring no other
/// encoding), the reading follows `quick_xml`'s tokens (tags, comments, CDATA
/// sections, processing instructions, a document type declaration without
/// internal subset, references) and refuses only:
/// - the text of an element named `author`, `managingEditor`, `webMaster`,
///   `creator` or `name` (any prefix) that holds an `@` right after a
///   character of an address's local part together with a character outside
///   ASCII;
/// - the text of a `duration` element, or the value of a `start`, `end` or
///   `time` attribute, with a character outside ASCII (or, for the attribute,
///   a reference) or more than 15 digits in a row;
/// - an XML declaration whose encoding is not UTF-8;
/// - in those texts, references that are unclosed, malformed, or name an
///   entity other than the five predefined ones; and markup that `quick_xml`
///   cannot read (an unclosed tag, comment or declaration, `<!` other than a
///   comment, CDATA section or document type, an internal subset).
/// For a JSON document, see `json_plain`.
pub open spec fn plain_feed_bytes(b: Seq<u8>) -> bool {
    if json_first(b) {
        json_plain(b)
    } else {
        not_utf16(b) && walk(b, 0, fresh(0))
    }
}

/// The bytes of an ASCII string.
fn ascii_bytes_of(s: &str) -> (v: Vec<u8>)
    ensures
        v@ == ascii_bytes(s@),
{
    let cs = chars_of(s);
    let mut v: Vec<u8> = Vec::new();
    let mut k: usize = 0;
    while k < cs.len()
        invariant
            k <= cs.len(),
            cs@ == s@,
            v@ == ascii_bytes(s@.take(k as int)),
        decreases cs.len() - k,
    {
        let c = cs[k];
        v.push(c as u8);
        assert(ascii_bytes(s@.take(k + 1)) =~= ascii_bytes(s@.take(k as int)).push(c as u8));
        k += 1;
    }
    assert(s@.take(k as int) =~= s@);
    v
}

/// Whether `p` occurs in `b` at offset `i`.
fn match_at(b: &[u8], i: usize, p: &Vec<u8>) -> (r: bool)
    ensures
        r == bytes_at(b@, i as int, p@),
{
    if p.len() > b.len() || i > b.len() - p.len() {
        return false;
    }
    let mut k: usize = 0;
    while k < p.len()
        invariant
            k <= p.len(),
            i + p.len() <= b.len(),
            forall|m: int| 0 <= m < k ==> b@[i + m] == p@[m],
        decreases p.len() - k,
    {
        if b[i + k] != p[k] {
            assert(b@.subrange(i as int, i + p.len())[k as int] != p@[k as int]);
            return false;
        }
        k += 1;
    }
    assert(b@.subrange(i as int, i + p.len()) =~= p@);
    true
}

/// Whether `p` occurs somewhere in `b`.
fn occurs(b: &[u8], p: &Vec<u8>) -> (r: bool)
    ensures
        r == holds_bytes(b@, p@),
{
    if p.len() == 0 {
        assert(bytes_at(b@, 0, p@)) by {
            assert(b@.subrange(0, 0) =~= p@);
        }
        return true;
    }
    let mut i: usize = 0;
    while i < b.len()
        invariant
            i <= b.len(),
            p.len() > 0,
            forall|j: int| 0 <= j < i ==> !bytes_at(b@, j, p@),
        decreases b.len() - i,
    {
        if match_at(b, i, p) {
            return true;
        }
        i += 1;
    }
    false
}

fn is_local_part(c: u8) -> (r: bool)
    ensures
        r == local_part_byte(c),
{
    (65 <= c && c <= 90) || (97 <= c && c <= 122) || (48 <= c && c <= 57) || c == 46 || c == 95 || c == 37
        || c == 43 || c == 45
}

fn digit_of(c: u8, radix: u64) -> (r: Option<u64>)
    ensures
        match digit_value(c, radix as nat) {
            Some(v) => r == Some(v as u64),
            None => r is None,
        },
{
    if 48 <= c && c <= 57 {
        Some((c - 48) as u64)
    } else if radix == 16 && 97 <= c && c <= 102 {
        Some((c - 87) as u64)
    } else if radix == 16 && 65 <= c && c <= 70 {
        Some((c - 55) as u64)
    } else {
        None
    }
}



fn is_space(c: u8) -> (r: bool)
    ensures
        r == is_xml_space(c),
{
    c == 9 || c == 10 || c == 13 || c == 32
}

/// The class of one byte of text (see `class_of`).
fn byte_class(c: u8) -> (r: u8)
    ensures
        r == class_of(c as nat),
{
    if c >= 128 {
        4
    } else if c == 64 {
        3
    } else if 48 <= c && c <= 57 {
        2
    } else if is_local_part(c) {
        1
    } else {
        0
    }
}

fn fresh_scan(node: u8) -> (s: Scan)
    ensures
        s == fresh(node),
{
    Scan { node, cdata: false, prev_local: false, email_at: false, wide: false, run: 0 }
}

fn feed_char(s: Scan, c: u8) -> (r: Option<Scan>)
    ensures
        r == feed(s, c),
{
    let local = c == 1 || c == 2;
    if s.node == 1 {
        let email = s.email_at || (c == 3 && s.prev_local);
        let wide = s.wide || c == 4;
        if email && wide {
            None
        } else {
            Some(Scan { node: s.node, cdata: s.cdata, prev_local: local, email_at: email, wide, run: s.run })
        }
    } else if s.node == 2 {
        if c == 4 || (c == 2 && s.run >= 15) {
            None
        } else {
            Some(
                Scan {
                    node: s.node,
                    cdata: s.cdata,
                    prev_local: local,
                    email_at: s.email_at,
                    wide: s.wide,
                    run: if c == 2 { s.run + 1 } else { 0 },
                },
            )
        }
    } else {
        Some(s)
    }
}

fn comment_end_at(b: &[u8], j0: usize) -> (k: usize)
    requires
        j0 >= 2,
    ensures
        k == comment_end(b@, j0 as int),
{
    let mut j = j0;
    while j < b.len()
        invariant
            j >= 2,
            comment_end(b@, j0 as int) == comment_end(b@, j as int),
        decreases b.len() - j,
    {
        if b[j] == 62 && b[j - 1] == 45 && b[j - 2] == 45 {
            return j;
        }
        j += 1;
    }
    b.len()
}

fn pi_end_at(b: &[u8], j0: usize) -> (k: usize)
    requires
        j0 >= 1,
    ensures
        k == pi_end(b@, j0 as int),
{
    let mut j = j0;
    while j < b.len()
        invariant
            j >= 1,
            pi_end(b@, j0 as int) == pi_end(b@, j as int),
        decreases b.len() - j,
    {
        if b[j] == 62 && b[j - 1] == 63 {
            return j;
        }
        j += 1;
    }
    b.len()
}

fn tag_end_at(b: &[u8], j0: usize) -> (k: usize)
    ensures
        k == tag_end(b@, j0 as int, 0),
{
    let mut j = j0;
    let mut q: u8 = 0;
    while j < b.len()
        invariant
            tag_end(b@, j0 as int, 0) == tag_end(b@, j as int, q),
        decreases b.len() - j,
    {
        let c = b[j];
        if q == 0 && c == 62 {
            return j;
        }
        q = if q == 0 && (c == 34 || c == 39) { c } else if q != 0 && c == q { 0 } else { q };
        j += 1;
    }
    b.len()
}

fn dtd_end_at(b: &[u8], j0: usize) -> (r: Option<usize>)
    ensures
        match r {
            Some(k) => dtd_end(b@, j0 as int, 0) == k,
            None => dtd_end(b@, j0 as int, 0) == -1,
        },
{
    let mut j = j0;
    let mut q: u8 = 0;
    while j < b.len()
        invariant
            dtd_end(b@, j0 as int, 0) == dtd_end(b@, j as int, q),
        decreases b.len() - j,
    {
        let c = b[j];
        if q == 0 && c == 62 {
            return Some(j);
        }
        if q == 0 && c == 91 {
            return None;
        }
        q = if q == 0 && (c == 34 || c == 39) { c } else if q != 0 && c == q { 0 } else { q };
        j += 1;
    }
    Some(b.len())
}

fn ref_end_at(b: &[u8], j0: usize) -> (k: usize)
    ensures
        k == ref_end(b@, j0 as int),
        j0 <= b.len() ==> j0 <= k,
{
    let mut j = j0;
    while j < b.len()
        invariant
            j0 <= j,
            ref_end(b@, j0 as int) == ref_end(b@, j as int),
        decreases b.len() - j,
    {
        if b[j] == 59 || b[j] == 38 || b[j] == 60 {
            return j;
        }
        j += 1;
    }
    b.len()
}

fn find_byte_at(b: &[u8], j0: usize, x: u8) -> (k: usize)
    ensures
        k == find_byte(b@, j0 as int, x),
        j0 <= b.len() ==> j0 <= k,
        k <= b.len() || k == j0,
{
    let mut j = j0;
    while j < b.len()
        invariant
            j0 <= j,
            find_byte(b@, j0 as int, x) == find_byte(b@, j as int, x),
        decreases b.len() - j,
    {
        if b[j] == x {
            return j;
        }
        j += 1;
    }
    b.len()
}

fn ws_end_at(b: &[u8], j0: usize, lim: usize) -> (k: usize)
    ensures
        k == ws_end(b@, j0 as int, lim as int),
{
    let mut j = j0;
    while j < lim && j < b.len()
        invariant
            ws_end(b@, j0 as int, lim as int) == ws_end(b@, j as int, lim as int),
        decreases lim - j,
    {
        if is_space(b[j]) {
            return j;
        }
        j += 1;
    }
    lim
}

fn first_non_ws_at(b: &[u8], j0: usize, lim: usize) -> (k: usize)
    ensures
        k == first_non_ws(b@, j0 as int, lim as int),
{
    let mut j = j0;
    while j < lim && j < b.len()
        invariant
            first_non_ws(b@, j0 as int, lim as int) == first_non_ws(b@, j as int, lim as int),
        decreases lim - j,
    {
        if !is_space(b[j]) {
            return j;
        }
        j += 1;
    }
    lim
}

/// The last byte before `end` that is no white space.
fn last_non_ws_before(b: &[u8], end: usize) -> (r: Option<usize>)
    requires
        end <= b.len(),
    ensures
        match r {
            Some(p) => last_non_ws(b@, end - 1) == p as int && p < end,
            None => last_non_ws(b@, end - 1) == -1,
        },
{
    let mut k = end;
    while k > 0
        invariant
            k <= end <= b.len(),
            last_non_ws(b@, end - 1) == last_non_ws(b@, k - 1),
        decreases k,
    {
        if !is_space(b[k - 1]) {
            return Some(k - 1);
        }
        k -= 1;
    }
    None
}

/// The literal byte strings that the reading looks for.
struct Patterns {
    comment: Vec<u8>,
    cdata: Vec<u8>,
    cdata_close: Vec<u8>,
    doctype_upper: Vec<u8>,
    doctype_lower: Vec<u8>,
    bang: Vec<u8>,
    pi: Vec<u8>,
    xml: Vec<u8>,
    end_tag: Vec<u8>,
    start: Vec<u8>,
    end: Vec<u8>,
    time: Vec<u8>,
    encoding: Vec<u8>,
    utf_8: Vec<u8>,
    utf8: Vec<u8>,
    unicode_utf8: Vec<u8>,
    author: Vec<u8>,
    managing_editor: Vec<u8>,
    web_master: Vec<u8>,
    creator: Vec<u8>,
    name: Vec<u8>,
    duration: Vec<u8>,
    amp: Vec<u8>,
    lt: Vec<u8>,
    gt: Vec<u8>,
    quot: Vec<u8>,
    apos: Vec<u8>,
}

/// Every pattern holds the bytes of its literal.
spec fn patterns_ok(p: &Patterns) -> bool {
    &&& p.comment@ == ascii_bytes("<!--"@)
    &&& p.cdata@ == ascii_bytes("<![CDATA["@)
    &&& p.cdata_close@ == ascii_bytes("]]>"@)
    &&& p.doctype_upper@ == ascii_bytes("<!D"@)
    &&& p.doctype_lower@ == ascii_bytes("<!d"@)
    &&& p.bang@ == ascii_bytes("<!"@)
    &&& p.pi@ == ascii_bytes("<?"@)
    &&& p.xml@ == ascii_bytes("<?xml"@)
    &&& p.end_tag@ == ascii_bytes("</"@)
    &&& p.start@ == ascii_bytes("start"@)
    &&& p.end@ == ascii_bytes("end"@)
    &&& p.time@ == ascii_bytes("time"@)
    &&& p.encoding@ == ascii_bytes("encoding"@)
    &&& p.utf_8@ == ascii_bytes("utf-8"@)
    &&& p.utf8@ == ascii_bytes("utf8"@)
    &&& p.unicode_utf8@ == ascii_bytes("unicode-1-1-utf-8"@)
    &&& p.author@ == ascii_bytes("author"@)
    &&& p.managing_editor@ == ascii_bytes("managingEditor"@)
    &&& p.web_master@ == ascii_bytes("webMaster"@)
    &&& p.creator@ == ascii_bytes("creator"@)
    &&& p.name@ == ascii_bytes("name"@)
    &&& p.duration@ == ascii_bytes("duration"@)
    &&& p.amp@ == ascii_bytes("amp"@)
    &&& p.lt@ == ascii_bytes("lt"@)
    &&& p.gt@ == ascii_bytes("gt"@)
    &&& p.quot@ == ascii_bytes("quot"@)
    &&& p.apos@ == ascii_bytes("apos"@)
}

fn patterns() -> (p: Patterns)
    ensures
        patterns_ok(&p),
{
    Patterns {
        comment: ascii_bytes_of("<!--"),
        cdata: ascii_bytes_of("<![CDATA["),
        cdata_close: ascii_bytes_of("]]>"),
        doctype_upper: ascii_bytes_of("<!D"),
        doctype_lower: ascii_bytes_of("<!d"),
        bang: ascii_bytes_of("<!"),
        pi: ascii_bytes_of("<?"),
        xml: ascii_bytes_of("<?xml"),
        end_tag: ascii_bytes_of("</"),
        start: ascii_bytes_of("start"),
        end: ascii_bytes_of("end"),
        time: ascii_bytes_of("time"),
        encoding: ascii_bytes_of("encoding"),
        utf_8: ascii_bytes_of("utf-8"),
        utf8: ascii_bytes_of("utf8"),
        unicode_utf8: ascii_bytes_of("unicode-1-1-utf-8"),
        author: ascii_bytes_of("author"),
        managing_editor: ascii_bytes_of("managingEditor"),
        web_master: ascii_bytes_of("webMaster"),
        creator: ascii_bytes_of("creator"),
        name: ascii_bytes_of("name"),
        duration: ascii_bytes_of("duration"),
        amp: ascii_bytes_of("amp"),
        lt: ascii_bytes_of("lt"),
        gt: ascii_bytes_of("gt"),
        quot: ascii_bytes_of("quot"),
        apos: ascii_bytes_of("apos"),
    }
}


/// Whether the quote at `q` opens the value of an attribute named `w`.
fn named_at(b: &[u8], q: usize, w: &Vec<u8>) -> (r: bool)
    requires
        q < b.len(),
    ensures
        r == named(b@, q as int, w@),
{
    let e = match last_non_ws_before(b, q) {
        None => return false,
        Some(e) => e,
    };
    if b[e] != 61 {
        return false;
    }
    let p = match last_non_ws_before(b, e) {
        None => return false,
        Some(p) => p,
    };
    if p < w.len() {
        return false;
    }
    let s = p - w.len() + 1;
    if !match_at(b, s, w) {
        return false;
    }
    let c = b[s - 1];
    is_space(c) || c == 34 || c == 39
}

fn timing_at(b: &[u8], q: usize, pats: &Patterns) -> (r: bool)
    requires
        q < b.len(),
        patterns_ok(pats),
    ensures
        r == timing_attr(b@, q as int),
{
    named_at(b, q, &pats.start) || named_at(b, q, &pats.end) || named_at(b, q, &pats.time)
}

fn npt_raw_ok_at(b: &[u8], j0: usize, e: usize) -> (r: bool)
    ensures
        r == npt_raw_ok(b@, j0 as int, e as int, 0),
{
    let mut j = j0;
    let mut run: u64 = 0;
    while j < e && j < b.len()
        invariant
            run <= 15,
            npt_raw_ok(b@, j0 as int, e as int, 0) == npt_raw_ok(b@, j as int, e as int, run as nat),
        decreases e - j,
    {
        let c = b[j];
        if c == 38 || c >= 128 {
            return false;
        }
        if 48 <= c && c <= 57 {
            if run >= 15 {
                return false;
            }
            run = run + 1;
        } else {
            run = 0;
        }
        j += 1;
    }
    true
}

fn tag_attrs_ok_at(b: &[u8], j0: usize, k: usize, pats: &Patterns) -> (r: bool)
    requires
        patterns_ok(pats),
    ensures
        r == tag_attrs_ok(b@, j0 as int, k as int),
{
    let mut j = j0;
    while j < k && j < b.len()
        invariant
            patterns_ok(pats),
            tag_attrs_ok(b@, j0 as int, k as int) == tag_attrs_ok(b@, j as int, k as int),
        decreases k - j,
    {
        let c0 = b[j];
        if c0 == 34 || c0 == 39 {
            let c = find_byte_at(b, j + 1, c0);
            if c <= j {
                return false;
            }
            if timing_at(b, j, pats) && !npt_raw_ok_at(b, j + 1, c) {
                return false;
            }
            if c >= k || c + 1 >= k {
                return true;
            }
            j = c + 1;
        } else {
            j += 1;
        }
    }
    true
}

fn lower_byte(c: u8) -> (r: u8)
    ensures
        r == lower(c),
{
    if 65 <= c && c <= 90 { c + 32 } else { c }
}

fn label_is_at(b: &[u8], s: usize, e: usize, p: &Vec<u8>) -> (r: bool)
    ensures
        r == label_is(b@, s as int, e as int, p@),
{
    if e > b.len() || s > e || e - s != p.len() {
        return false;
    }
    let mut m: usize = 0;
    while m < p.len()
        invariant
            e <= b.len(),
            s <= e,
            e - s == p.len(),
            m <= p.len(),
            forall|n: int| 0 <= n < m ==> lower(#[trigger] b@[s + n]) == p@[n],
        decreases p.len() - m,
    {
        if lower_byte(b[s + m]) != p[m] {
            return false;
        }
        m += 1;
    }
    true
}

fn utf8_label_at(b: &[u8], s: usize, e: usize, pats: &Patterns) -> (r: bool)
    requires
        e <= b.len(),
        patterns_ok(pats),
    ensures
        r == utf8_label(b@, s as int, e as int),
{
    let s2 = first_non_ws_at(b, s, e);
    let e2: usize = match last_non_ws_before(b, e) {
        Some(p) => p + 1,
        None => 0,
    };
    s2 < e2 && (label_is_at(b, s2, e2, &pats.utf_8) || label_is_at(b, s2, e2, &pats.utf8) || label_is_at(
        b,
        s2,
        e2,
        &pats.unicode_utf8,
    ))
}

fn decl_attrs_ok_at(b: &[u8], j0: usize, k: usize, pats: &Patterns) -> (r: bool)
    requires
        patterns_ok(pats),
    ensures
        r == decl_attrs_ok(b@, j0 as int, k as int),
{
    let mut j = j0;
    while j < k && j < b.len()
        invariant
            patterns_ok(pats),
            decl_attrs_ok(b@, j0 as int, k as int) == decl_attrs_ok(b@, j as int, k as int),
        decreases k - j,
    {
        let c0 = b[j];
        if c0 == 34 || c0 == 39 {
            let c = find_byte_at(b, j + 1, c0);
            if c <= j {
                return false;
            }
            if named_at(b, j, &pats.encoding) && !utf8_label_at(b, j + 1, c, pats) {
                return false;
            }
            if c >= k || c + 1 >= k {
                return true;
            }
            j = c + 1;
        } else {
            j += 1;
        }
    }
    true
}

fn local_name_is_at(b: &[u8], s: usize, e: usize, w: &Vec<u8>) -> (r: bool)
    requires
        s <= e <= b.len(),
    ensures
        r == local_name_is(b@, s as int, e as int, w@),
{
    if e - s == w.len() && match_at(b, s, w) {
        return true;
    }
    e - s > w.len() && match_at(b, e - w.len(), w) && b[e - w.len() - 1] == 58
}

fn person_name_at(b: &[u8], s: usize, e: usize, pats: &Patterns) -> (r: bool)
    requires
        s <= e <= b.len(),
        patterns_ok(pats),
    ensures
        r == person_name(b@, s as int, e as int),
{
    local_name_is_at(b, s, e, &pats.author) || local_name_is_at(b, s, e, &pats.managing_editor)
        || local_name_is_at(b, s, e, &pats.web_master) || local_name_is_at(b, s, e, &pats.creator)
        || local_name_is_at(b, s, e, &pats.name)
}

fn start_tag_at(b: &[u8], i: usize, pats: &Patterns) -> (r: Option<(usize, Scan)>)
    requires
        i < b.len(),
        patterns_ok(pats),
    ensures
        match r {
            Some((j, t)) => start_tag_step(b@, i as int) == Some((j as int, t)),
            None => start_tag_step(b@, i as int) is None,
        },
{
    let k = tag_end_at(b, i + 1);
    if k >= b.len() || k < i + 1 || !tag_attrs_ok_at(b, i + 1, k, pats) {
        return None;
    }
    let sc = b[k - 1] == 47;
    let lim = if sc { k - 1 } else { k };
    let ne = ws_end_at(b, i + 1, lim);
    proof {
        lemma_ws_end_bounds(b@, (i + 1) as int, lim as int);
    }
    let node: u8 = if sc {
        0
    } else if i + 1 <= ne && person_name_at(b, i + 1, ne, pats) {
        1
    } else if i + 1 <= ne && local_name_is_at(b, i + 1, ne, &pats.duration) {
        2
    } else {
        0
    };
    Some((k + 1, fresh_scan(node)))
}

proof fn lemma_ws_end_bounds(b: Seq<u8>, j: int, lim: int)
    ensures
        (0 <= j <= lim) ==> j <= ws_end(b, j, lim) <= lim,
        ws_end(b, j, lim) < j ==> ws_end(b, j, lim) == lim,
    decreases lim - j,
{
    if 0 <= j < lim && j < b.len() && !is_xml_space(b[j]) {
        lemma_ws_end_bounds(b, j + 1, lim);
    }
}

fn predefined_at(b: &[u8], s: usize, e: usize, pats: &Patterns) -> (r: bool)
    requires
        patterns_ok(pats),
        s <= e,
    ensures
        r == predefined_entity(b@, s as int, e as int),
{
    (e - s == 3 && match_at(b, s, &pats.amp)) || (e - s == 2 && match_at(b, s, &pats.lt)) || (e - s == 2
        && match_at(b, s, &pats.gt)) || (e - s == 4 && match_at(b, s, &pats.quot)) || (e - s == 4 && match_at(
        b,
        s,
        &pats.apos,
    ))
}

proof fn lemma_ref_end_ge(b: Seq<u8>, j: int)
    requires
        0 <= j,
    ensures
        ref_end(b, j) >= j || ref_end(b, j) == b.len(),
    decreases b.len() - j,
{
    if j < b.len() && !(b[j] == 59 || b[j] == 38 || b[j] == 60) {
        lemma_ref_end_ge(b, j + 1);
    }
}

/// The class of the character that the digits from `j` to their end stand
/// for, in base `radix`, with the end of the digits.
fn char_ref_class(b: &[u8], j: usize, radix: u64) -> (r: (usize, u8))
    requires
        j < b.len(),
        radix == 10 || radix == 16,
    ensures
        r.0 == digits_end(b@, j as int, radix as nat),
        r.1 == class_of(digits_value(b@.subrange(j as int, r.0 as int), radix as nat)),
{
    let ghost rr = radix as nat;
    let mut e: usize = j;
    // The value of the digits read so far, held at 128 once it reaches it:
    // every code point from 128 on is of the same class.
    let mut v: u64 = 0;
    assert(b@.subrange(j as int, j as int) =~= Seq::<u8>::empty());
    while e < b.len()
        invariant
            j <= e <= b.len(),
            rr == radix as nat,
            radix == 10 || radix == 16,
            digits_end(b@, j as int, rr) == digits_end(b@, e as int, rr),
            v <= 128,
            v == (if digits_value(b@.subrange(j as int, e as int), rr) < 128 {
                digits_value(b@.subrange(j as int, e as int), rr)
            } else {
                128
            }),
        ensures
            e == b.len() || digit_value(b@[e as int], rr) is None,
            digits_end(b@, j as int, rr) == digits_end(b@, e as int, rr),
            v == (if digits_value(b@.subrange(j as int, e as int), rr) < 128 {
                digits_value(b@.subrange(j as int, e as int), rr)
            } else {
                128
            }),
        decreases b.len() - e,
    {
        match digit_of(b[e], radix) {
            None => break,
            Some(d) => {
                let ghost prev = digits_value(b@.subrange(j as int, e as int), rr);
                let ghost s = b@.subrange(j as int, e + 1);
                assert(s.drop_last() =~= b@.subrange(j as int, e as int));
                assert(s.last() == b@[e as int]);
                assert(digits_value(s, rr) == prev * rr + d);
                assert(prev * rr >= prev) by (nonlinear_arith)
                    requires
                        rr >= 1,
                ;
                if v < 128 {
                    let w = v * radix + d;
                    v = if w < 128 { w } else { 128 };
                }
                e += 1;
            },
        }
    }
    let c: u8 = if v >= 128 {
        4
    } else if v == 64 {
        3
    } else if 48 <= v && v <= 57 {
        2
    } else if is_local_part(v as u8) {
        1
    } else {
        0
    };
    (e, c)
}

fn ref_at(b: &[u8], i: usize, s: Scan, pats: &Patterns) -> (r: Option<(usize, Scan)>)
    requires
        i < b.len(),
        patterns_ok(pats),
    ensures
        match r {
            Some((j, t)) => ref_step(b@, i as int, s) == Some((j as int, t)),
            None => ref_step(b@, i as int, s) is None,
        },
{
    let k = ref_end_at(b, i + 1);
    if k >= b.len() || b[k] != 59 {
        return None;
    }
    proof {
        lemma_ref_end_ge(b@, i + 1);
    }
    if b[i + 1] == 35 {
        assert(k >= i + 2) by {
            lemma_ref_end_ge(b@, i + 2);
        }
        let hex = b[i + 2] == 120;
        let radix: u64 = if hex { 16 } else { 10 };
        let j: usize = if hex { i + 3 } else { i + 2 };
        if j >= k {
            return None;
        }
        let (e, c) = char_ref_class(b, j, radix);
        if e != k {
            return None;
        }
        match feed_char(s, c) {
            Some(t) => Some((k + 1, t)),
            None => None,
        }
    } else if predefined_at(b, i + 1, k, pats) {
        match feed_char(s, 0) {
            Some(t) => Some((k + 1, t)),
            None => None,
        }
    } else {
        None
    }
}

fn step_at(b: &[u8], i: usize, s: Scan, pats: &Patterns) -> (r: Option<(usize, Scan)>)
    requires
        i < b.len(),
        patterns_ok(pats),
    ensures
        match r {
            Some((j, t)) => step(b@, i as int, s) == Some((j as int, t)),
            None => step(b@, i as int, s) is None,
        },
{
    proof {
        reveal_strlit("]]>");
        reveal_strlit("<!--");
        reveal_strlit("<![CDATA[");
        reveal_strlit("<!D");
        reveal_strlit("<!d");
        reveal_strlit("<!");
        reveal_strlit("<?");
        reveal_strlit("<?xml");
        reveal_strlit("</");
    }
    let c = b[i];
    if s.cdata {
        if match_at(b, i, &pats.cdata_close) {
            Some((i + 3, Scan { node: s.node, cdata: false, prev_local: s.prev_local, email_at: s.email_at, wide: s.wide, run: s.run }))
        } else {
            match feed_char(s, byte_class(c)) {
                Some(t) => Some((i + 1, t)),
                None => None,
            }
        }
    } else if c == 60 {
        if match_at(b, i, &pats.comment) {
            let k = comment_end_at(b, i + 4);
            if k >= b.len() || k < i || k - i < 6 { None } else { Some((k + 1, s)) }
        } else if match_at(b, i, &pats.cdata) {
            Some((i + 9, Scan { node: s.node, cdata: true, prev_local: s.prev_local, email_at: s.email_at, wide: s.wide, run: s.run }))
        } else if match_at(b, i, &pats.doctype_upper) || match_at(b, i, &pats.doctype_lower) {
            match dtd_end_at(b, i + 2) {
                None => None,
                Some(k) => if k >= b.len() { None } else { Some((k + 1, s)) },
            }
        } else if match_at(b, i, &pats.bang) {
            None
        } else if match_at(b, i, &pats.pi) {
            let k = pi_end_at(b, i + 2);
            if k >= b.len() || k <= i + 2 {
                None
            } else if match_at(b, i, &pats.xml) && i + 5 < b.len() && (is_space(b[i + 5]) || b[i + 5] == 63)
                && !decl_attrs_ok_at(b, i + 5, k - 1, pats) {
                None
            } else {
                Some((k + 1, s))
            }
        } else if match_at(b, i, &pats.end_tag) {
            let k = tag_end_at(b, i + 1);
            if k >= b.len() { None } else { Some((k + 1, fresh_scan(0))) }
        } else {
            start_tag_at(b, i, pats)
        }
    } else if c == 38 && s.node != 0 {
        ref_at(b, i, s, pats)
    } else {
        match feed_char(s, byte_class(c)) {
            Some(t) => Some((i + 1, t)),
            None => None,
        }
    }
}

/// Whether `feed_rs` reads `b` as JSON (see `json_first`).
fn json_first_at(b: &[u8]) -> (r: bool)
    ensures
        r == json_first(b@),
{
    let mut k: usize = 0;
    while k < b.len()
        invariant
            k <= b.len(),
            forall|g: int| 0 <= g < k ==> b@[g] != 60 && b@[g] != 123,
        decreases b.len() - k,
    {
        if b[k] == 123 {
            return true;
        }
        if b[k] == 60 {
            assert(!json_first(b@)) by {
                if json_first(b@) {
                    let f = choose|f: int|
                        0 <= f < b.len() && b@[f] == 123 && forall|g: int| 0 <= g < f ==> b@[g] != 60 && b@[g] != 123;
                    if f < k {
                    } else if f > k {
                        assert(b@[k as int] != 60);
                    }
                }
            }
            return false;
        }
        k += 1;
    }
    false
}

/// Whether a JSON document is plain (see `json_plain`).
fn json_plain_at(b: &[u8]) -> (r: bool)
    ensures
        r == json_plain(b@),
{
    let escape = ascii_bytes_of("\\u");
    if occurs(b, &escape) {
        return false;
    }
    let mut at = false;
    let mut high = false;
    let mut i: usize = 0;
    while i < b.len()
        invariant
            i <= b.len(),
            at == exists|m: int| 1 <= m < i && #[trigger] b@[m] == 64 && local_part_byte(b@[m - 1]),
            high == exists|m: int| 0 <= m < i && b@[m] >= 128,
        decreases b.len() - i,
    {
        if i >= 1 && b[i] == 64 && is_local_part(b[i - 1]) {
            at = true;
        }
        if b[i] >= 128 {
            high = true;
        }
        i += 1;
    }
    !(at && high)
}

/// Whether `b` is a feed document on which `feed_rs` cannot reach one of its
/// panics (see `plain_feed_bytes`).
pub fn plain_feed(b: &[u8]) -> (r: bool)
    ensures
        r == plain_feed_bytes(b@),
{
    if json_first_at(b) {
        return json_plain_at(b);
    }
    let n = b.len();
    if (n >= 2 && b[0] == 254 && b[1] == 255) || (n >= 2 && b[0] == 255 && b[1] == 254) || (n >= 4 && b[0] == 0
        && b[1] == 60 && b[2] == 0 && b[3] == 63) || (n >= 4 && b[0] == 60 && b[1] == 0 && b[2] == 63 && b[3]
        == 0) {
        return false;
    }
    let pats = patterns();
    let mut i: usize = 0;
    let mut s = fresh_scan(0);
    while i < b.len()
        invariant
            patterns_ok(&pats),
            !json_first(b@),
            not_utf16(b@),
            walk(b@, 0, fresh(0)) == walk(b@, i as int, s),
        decreases b.len() - i,
    {
        match step_at(b, i, s, &pats) {
            None => return false,
            Some((j, t)) => {
                if j <= i {
                    return false;
                }
                if j >= b.len() {
                    return true;
                }
                i = j;
                s = t;
            },
        }
    }
    true
}

} // verus!
