use vstd::bytes::{spec_u32_from_le_bytes, spec_u32_to_le_bytes, u32_from_le_bytes, u32_to_le_bytes, lemma_auto_spec_u32_to_from_le_bytes};
use vstd::prelude::*;
use vstd::utf8::{decode_utf8, is_leading_byte_width_1, partial_valid_utf8_extend_ascii_block, valid_utf8, valid_utf8_concat};

use crate::layout::{EMAIL_OFFSET, EMAIL_SIZE, ID_SIZE, ROW_SIZE, USERNAME_OFFSET, USERNAME_SIZE};

verus! {

/// One record: an id and two zero-padded text fields of fixed width.
#[derive(Debug)]
pub struct Row {
    pub id: u32,
    pub username: Vec<u8>,
    pub email: Vec<u8>,
}

/// Why a row could not be built.
#[derive(Clone, Copy, Debug, PartialEq, Eq, Structural)]
pub enum RowError {
    /// The username or the email is longer than its field.
    StringTooLong,
}

/// `text` left-justified in a field of `width` bytes, the rest zero.
pub open spec fn padded(text: Seq<u8>, width: nat) -> Seq<u8> {
    text + Seq::new((width - text.len()) as nat, |i: int| 0u8)
}

/// The bytes of a row: the id in little-endian order, then the username,
/// then the email.
pub open spec fn encode_row(id: u32, username: Seq<u8>, email: Seq<u8>) -> Seq<u8> {
    spec_u32_to_le_bytes(id) + username + email
}

/// The id stored in the bytes of a row.
pub open spec fn decode_id(b: Seq<u8>) -> u32 {
    spec_u32_from_le_bytes(b.subrange(0, ID_SIZE as int))
}

/// The username field stored in the bytes of a row.
pub open spec fn decode_username(b: Seq<u8>) -> Seq<u8> {
    b.subrange(USERNAME_OFFSET as int, USERNAME_OFFSET + USERNAME_SIZE)
}

/// The email field stored in the bytes of a row.
pub open spec fn decode_email(b: Seq<u8>) -> Seq<u8> {
    b.subrange(EMAIL_OFFSET as int, EMAIL_OFFSET + EMAIL_SIZE)
}

/// `k` is where the text of field `f` ends: at its first zero byte, or at
/// its end where it holds none.
pub open spec fn is_text_end(f: Seq<u8>, k: int) -> bool {
    &&& 0 <= k <= f.len()
    &&& forall|i: int| 0 <= i < k ==> f[i] != 0
    &&& (k == f.len() || f[k] == 0)
}

/// Where the text of field `f` ends.
pub open spec fn text_end(f: Seq<u8>) -> int {
    choose|k: int| is_text_end(f, k)
}

/// The text held by a zero-padded field: its bytes up to the first zero.
pub open spec fn text_of(f: Seq<u8>) -> Seq<u8> {
    f.take(text_end(f))
}

/// A field's text ends at exactly one place.
pub proof fn lemma_text_end_unique(f: Seq<u8>, k: int)
    requires
        is_text_end(f, k),
    ensures
        text_end(f) == k,
{
    let j = text_end(f);
    assert(is_text_end(f, j));
    if j < k {
        assert(f[j] != 0);
    } else if k < j {
        assert(f[k] != 0);
    }
}

/// A text without zero bytes, padded with zeros, reads back as itself.
pub proof fn lemma_text_of_padded(text: Seq<u8>, width: nat)
    requires
        text.len() <= width,
        forall|i: int| 0 <= i < text.len() ==> text[i] != 0,
    ensures
        text_of(padded(text, width)) == text,
{
    let f = padded(text, width);
    assert(is_text_end(f, text.len() as int));
    lemma_text_end_unique(f, text.len() as int);
    assert(f.take(text.len() as int) =~= text);
}

impl Row {
    /// The row's fields have their fixed widths.
    pub open spec fn wf(&self) -> bool {
        &&& self.username@.len() == USERNAME_SIZE
        &&& self.email@.len() == EMAIL_SIZE
    }

    /// The row's bytes.
    pub open spec fn bytes(&self) -> Seq<u8> {
        encode_row(self.id, self.username@, self.email@)
    }

    /// Builds a row from an id and the two texts, zero-padding each to its
    /// field; a text longer than its field is refused.
    pub fn new(id: u32, username: &[u8], email: &[u8]) -> (r: Result<Row, RowError>)
        ensures
            r is Err <==> (username@.len() > USERNAME_SIZE || email@.len() > EMAIL_SIZE),
            r is Err ==> r == Err::<Row, RowError>(RowError::StringTooLong),
            r matches Ok(row) ==> {
                &&& row.wf()
                &&& row.id == id
                &&& row.username@ == padded(username@, USERNAME_SIZE as nat)
                &&& row.email@ == padded(email@, EMAIL_SIZE as nat)
            },
    {
        if username.len() > USERNAME_SIZE || email.len() > EMAIL_SIZE {
            return Err(RowError::StringTooLong);
        }
        let username = pad_field(username, USERNAME_SIZE);
        let email = pad_field(email, EMAIL_SIZE);
        Ok(Row { id, username, email })
    }

    /// Writes the row's bytes into `dest` at `offset`, leaving every other
    /// byte as it was.
    pub fn serialize(&self, dest: &mut Vec<u8>, offset: usize)
        requires
            self.wf(),
            offset + ROW_SIZE <= old(dest)@.len(),
        ensures
            final(dest)@ == old(dest)@.subrange(0, offset as int) + self.bytes()
                + old(dest)@.subrange(offset + ROW_SIZE, old(dest)@.len() as int),
    {
        let ghost start = dest@;
        let ghost enc = self.bytes();
        let id_bytes = u32_to_le_bytes(self.id);
        let n = dest.len();
        let mut i: usize = 0;
        while i < ROW_SIZE
            invariant
                i <= ROW_SIZE,
                self.wf(),
                enc == self.bytes(),
                id_bytes@ == spec_u32_to_le_bytes(self.id),
                enc.len() == ROW_SIZE,
                offset + ROW_SIZE <= start.len(),
                dest@.len() == start.len(),
                n == start.len(),
                forall|j: int| 0 <= j < offset || offset + i <= j < start.len() ==> dest@[j] == start[j],
                forall|j: int| 0 <= j < i ==> dest@[offset + j] == enc[j],
            decreases ROW_SIZE - i,
        {
            proof { lemma_auto_spec_u32_to_from_le_bytes(); }
            let b = if i < USERNAME_OFFSET {
                id_bytes[i]
            } else if i < EMAIL_OFFSET {
                self.username[i - USERNAME_OFFSET]
            } else {
                self.email[i - EMAIL_OFFSET]
            };
            assert(b == enc[i as int]);
            dest[offset + i] = b;
            i = i + 1;
        }
        assert(dest@ =~= start.subrange(0, offset as int) + enc + start.subrange(offset + ROW_SIZE, start.len() as int));
    }

    /// Reads a row back from the `ROW_SIZE` bytes of `src` at `offset`.
    pub fn deserialize(src: &[u8], offset: usize) -> (r: Row)
        requires
            offset + ROW_SIZE <= src@.len(),
        ensures
            r.wf(),
            r.id == decode_id(src@.subrange(offset as int, offset + ROW_SIZE)),
            r.username@ == decode_username(src@.subrange(offset as int, offset + ROW_SIZE)),
            r.email@ == decode_email(src@.subrange(offset as int, offset + ROW_SIZE)),
    {
        let ghost b = src@.subrange(offset as int, offset + ROW_SIZE);
        let _n = src.len();
        let id_bytes = copy_range(src, offset, ID_SIZE);
        let id = u32_from_le_bytes(id_bytes.as_slice());
        let username = copy_range(src, offset + USERNAME_OFFSET, USERNAME_SIZE);
        let email = copy_range(src, offset + EMAIL_OFFSET, EMAIL_SIZE);
        assert(id_bytes@ =~= b.subrange(0, ID_SIZE as int));
        assert(username@ =~= decode_username(b));
        assert(email@ =~= decode_email(b));
        Row { id, username, email }
    }
}

/// `text` followed by zeros up to `width` bytes.
fn pad_field(text: &[u8], width: usize) -> (r: Vec<u8>)
    requires
        text@.len() <= width,
    ensures
        r@ == padded(text@, width as nat),
{
    let mut r: Vec<u8> = Vec::with_capacity(width);
    let mut i: usize = 0;
    while i < width
        invariant
            i <= width,
            text@.len() <= width,
            r@.len() == i,
            forall|j: int| 0 <= j < i ==> r@[j] == padded(text@, width as nat)[j],
        decreases width - i,
    {
        if i < text.len() {
            r.push(text[i]);
        } else {
            r.push(0u8);
        }
        i = i + 1;
    }
    assert(r@ =~= padded(text@, width as nat));
    r
}

/// A copy of the `len` bytes of `src` that start at `start`.
fn copy_range(src: &[u8], start: usize, len: usize) -> (r: Vec<u8>)
    requires
        start + len <= src@.len(),
    ensures
        r@ == src@.subrange(start as int, start + len),
{
    let mut r: Vec<u8> = Vec::with_capacity(len);
    let n = src.len();
    let mut i: usize = 0;
    while i < len
        invariant
            i <= len,
            n == src@.len(),
            start + len <= src@.len(),
            r@ == src@.subrange(start as int, start + i),
        decreases len - i,
    {
        r.push(src[start + i]);
        i = i + 1;
        assert(r@ =~= src@.subrange(start as int, start + i));
    }
    r
}

/// Serializing a row and reading it back gives the same id and fields; the
/// text of each field, up to its padding, is the text the row was built from.
pub proof fn lemma_round_trip(id: u32, username: Seq<u8>, email: Seq<u8>)
    requires
        username.len() <= USERNAME_SIZE,
        email.len() <= EMAIL_SIZE,
        forall|i: int| 0 <= i < username.len() ==> username[i] != 0,
        forall|i: int| 0 <= i < email.len() ==> email[i] != 0,
    ensures
        ({
            let u = padded(username, USERNAME_SIZE as nat);
            let e = padded(email, EMAIL_SIZE as nat);
            let b = encode_row(id, u, e);
            &&& b.len() == ROW_SIZE
            &&& decode_id(b) == id
            &&& decode_username(b) == u
            &&& decode_email(b) == e
            &&& text_of(decode_username(b)) == username
            &&& text_of(decode_email(b)) == email
        }),
{
    let u = padded(username, USERNAME_SIZE as nat);
    let e = padded(email, EMAIL_SIZE as nat);
    let b = encode_row(id, u, e);
    lemma_auto_spec_u32_to_from_le_bytes();
    assert(b.subrange(0, ID_SIZE as int) =~= spec_u32_to_le_bytes(id));
    assert(decode_username(b) =~= u);
    assert(decode_email(b) =~= e);
    lemma_text_of_padded(username, USERNAME_SIZE as nat);
    lemma_text_of_padded(email, EMAIL_SIZE as nat);
}

/// Reading back the bytes that `serialize` wrote gives the row itself.
pub proof fn lemma_decode_encode(row: Row)
    requires
        row.wf(),
    ensures
        decode_id(row.bytes()) == row.id,
        decode_username(row.bytes()) == row.username@,
        decode_email(row.bytes()) == row.email@,
{
    let b = row.bytes();
    lemma_auto_spec_u32_to_from_le_bytes();
    assert(b.subrange(0, ID_SIZE as int) =~= spec_u32_to_le_bytes(row.id));
    assert(decode_username(b) =~= row.username@);
    assert(decode_email(b) =~= row.email@);
}

/// The decimal digits of `n`, as ASCII bytes.
pub open spec fn decimal(n: nat) -> Seq<u8>
    decreases n,
{
    if n < 10 {
        seq![(48 + n) as u8]
    } else {
        decimal(n / 10) + seq![(48 + n % 10) as u8]
    }
}

/// How a field is shown: its text where that is valid UTF-8, else nothing.
pub open spec fn shown_text(f: Seq<u8>) -> Seq<u8> {
    if valid_utf8(text_of(f)) {
        text_of(f)
    } else {
        Seq::empty()
    }
}

/// The bytes of a row as shown: `(id, username, email)`.
pub open spec fn display_bytes(id: u32, username: Seq<u8>, email: Seq<u8>) -> Seq<u8> {
    seq![40u8] + decimal(id as nat) + seq![44u8, 32u8] + shown_text(username) + seq![44u8, 32u8]
        + shown_text(email) + seq![41u8]
}

/// All bytes of `b` are ASCII.
pub open spec fn is_ascii_bytes(b: Seq<u8>) -> bool {
    forall|i: int| 0 <= i < b.len() ==> #[trigger] is_leading_byte_width_1(b[i])
}

proof fn lemma_ascii_valid_utf8(b: Seq<u8>)
    requires
        is_ascii_bytes(b),
    ensures
        valid_utf8(b),
{
    assert(b.subrange(0, 0) =~= Seq::<u8>::empty());
    partial_valid_utf8_extend_ascii_block(b, 0, b.len() as int);
    assert(b.subrange(0, b.len() as int) =~= b);
}

proof fn lemma_decimal_ascii(n: nat)
    ensures
        is_ascii_bytes(decimal(n)),
    decreases n,
{
    if n >= 10 {
        lemma_decimal_ascii(n / 10);
    }
}

/// Appends the decimal digits of `n` to `out`.
fn push_decimal(n: u32, out: &mut Vec<u8>)
    ensures
        final(out)@ == old(out)@ + decimal(n as nat),
    decreases n,
{
    if n >= 10 {
        push_decimal(n / 10, out);
    }
    out.push(48u8 + (n % 10) as u8);
    assert(out@ =~= old(out)@ + decimal(n as nat));
}

/// Where the text of `f` ends: the index of its first zero byte, or its length.
fn find_text_end(f: &[u8]) -> (k: usize)
    ensures
        is_text_end(f@, k as int),
{
    let mut k: usize = 0;
    while k < f.len() && f[k] != 0
        invariant
            k <= f@.len(),
            forall|i: int| 0 <= i < k ==> f@[i] != 0,
        decreases f@.len() - k,
    {
        k = k + 1;
    }
    k
}

/// Appends to `out` how field `f` is shown.
fn push_shown_text(f: &[u8], out: &mut Vec<u8>)
    ensures
        final(out)@ == old(out)@ + shown_text(f@),
{
    let k = find_text_end(f);
    proof { lemma_text_end_unique(f@, k as int); }
    let text = copy_range(f, 0, k);
    assert(text@ =~= text_of(f@));
    if utf8_text(text.as_slice()).is_some() {
        let mut i: usize = 0;
        let ghost start = out@;
        while i < text.len()
            invariant
                i <= text@.len(),
                out@ == start + text@.subrange(0, i as int),
            decreases text@.len() - i,
        {
            out.push(text[i]);
            i = i + 1;
            assert(out@ =~= start + text@.subrange(0, i as int));
        }
        assert(text@.subrange(0, text@.len() as int) =~= text@);
    } else {
        assert(out@ =~= out@ + Seq::<u8>::empty());
    }
}

/// Relies on `std::str::from_utf8`: it accepts exactly the valid UTF-8
/// byte sequences and hands back the characters they encode.
#[verifier::external_body]
fn utf8_text(b: &[u8]) -> (r: Option<String>)
    ensures
        r is Some <==> valid_utf8(b@),
        r matches Some(s) ==> s@ == decode_utf8(b@),
{
    match std::str::from_utf8(b) {
        Ok(s) => Some(s.to_string()),
        Err(_) => None,
    }
}

impl Row {
    /// The row as text, `(id, username, email)`: each field up to its first
    /// zero byte, or empty where those bytes are not valid UTF-8.
    pub fn to_string(&self) -> (r: String)
        requires
            self.wf(),
        ensures
            valid_utf8(display_bytes(self.id, self.username@, self.email@)),
            r@ == decode_utf8(display_bytes(self.id, self.username@, self.email@)),
    {
        let mut out: Vec<u8> = Vec::new();
        out.push(40u8);
        push_decimal(self.id, &mut out);
        out.push(44u8);
        out.push(32u8);
        push_shown_text(self.username.as_slice(), &mut out);
        out.push(44u8);
        out.push(32u8);
        push_shown_text(self.email.as_slice(), &mut out);
        out.push(41u8);
        let ghost d = display_bytes(self.id, self.username@, self.email@);
        proof {
            assert(out@ =~= d);
            broadcast use valid_utf8_concat;
            lemma_decimal_ascii(self.id as nat);
            lemma_ascii_valid_utf8(decimal(self.id as nat));
            lemma_ascii_valid_utf8(seq![40u8]);
            lemma_ascii_valid_utf8(seq![44u8, 32u8]);
            lemma_ascii_valid_utf8(seq![41u8]);
            lemma_ascii_valid_utf8(Seq::<u8>::empty());
            let sep = seq![44u8, 32u8];
            let u = shown_text(self.username@);
            let e = shown_text(self.email@);
            assert(valid_utf8(u));
            assert(valid_utf8(e));
            let head = seq![40u8] + decimal(self.id as nat);
            valid_utf8_concat(seq![40u8], decimal(self.id as nat));
            valid_utf8_concat(head, sep);
            valid_utf8_concat(head + sep, u);
            valid_utf8_concat(head + sep + u, sep);
            valid_utf8_concat(head + sep + u + sep, e);
            valid_utf8_concat(head + sep + u + sep + e, seq![41u8]);
            assert(valid_utf8(d));
        }
        match utf8_text(out.as_slice()) {
            Some(s) => s,
            None => String::new(),
        }
    }
}

} // verus!
