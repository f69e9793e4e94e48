use vstd::prelude::*;

verus! {

/// Something that styled text can be written to: escape codes, which are
/// strings, and pieces of text of type `Wstr` (`str` for a `String`,
/// `[u8]` for a byte buffer).  `written` is what it holds, as units
/// (characters or bytes).
pub trait AnyWrite {
    type Wstr: ?Sized;

    type Unit;

    /// What has been written so far.
    spec fn written(&self) -> Seq<Self::Unit>;

    /// The units that an escape code (a string) becomes.
    spec fn code_units(code: Seq<char>) -> Seq<Self::Unit>;

    /// The units of a piece of text.
    spec fn wstr_units(s: &Self::Wstr) -> Seq<Self::Unit>;

    /// An empty code writes nothing.
    proof fn lemma_empty_code()
        ensures
            Self::code_units(Seq::empty()) == Seq::<Self::Unit>::empty(),
    ;

    /// Whether two pieces of text would write the same units.
    fn same_text(a: &Self::Wstr, b: &Self::Wstr) -> (r: bool)
        ensures
            r == (Self::wstr_units(a) == Self::wstr_units(b)),
    ;

    /// Writes an escape code.
    fn write_code(&mut self, code: &str)
        ensures
            final(self).written() == old(self).written() + Self::code_units(code@),
    ;

    /// Writes a piece of text.
    fn write_str(&mut self, s: &Self::Wstr)
        ensures
            final(self).written() == old(self).written() + Self::wstr_units(s),
    ;
}

impl AnyWrite for String {
    type Wstr = str;

    type Unit = char;

    open spec fn written(&self) -> Seq<char> {
        self@
    }

    open spec fn code_units(code: Seq<char>) -> Seq<char> {
        code
    }

    open spec fn wstr_units(s: &str) -> Seq<char> {
        s@
    }

    proof fn lemma_empty_code() {
    }

    fn same_text(a: &str, b: &str) -> (r: bool) {
        let r = same_bytes(a.as_bytes(), b.as_bytes());
        proof {
            vstd::utf8::encode_utf8_decode_utf8(a@);
            vstd::utf8::encode_utf8_decode_utf8(b@);
        }
        r
    }

    fn write_code(&mut self, code: &str) {
        self.append(code);
    }

    fn write_str(&mut self, s: &str) {
        self.append(s);
    }
}

/// Whether two byte slices hold the same bytes.
fn same_bytes(a: &[u8], b: &[u8]) -> (r: bool)
    ensures
        r == (a@ == b@),
{
    let n = a.len();
    if n != b.len() {
        return false;
    }
    let mut i: usize = 0;
    while i < n
        invariant
            n == a@.len(),
            n == b@.len(),
            i <= n,
            a@.take(i as int) == b@.take(i as int),
        decreases n - i,
    {
        if a[i] != b[i] {
            assert(a@[i as int] != b@[i as int]);
            return false;
        }
        assert(a@.take(i + 1) =~= a@.take(i as int).push(a@[i as int]));
        assert(b@.take(i + 1) =~= b@.take(i as int).push(b@[i as int]));
        i = i + 1;
    }
    assert(a@ =~= a@.take(n as int));
    assert(b@ =~= b@.take(n as int));
    true
}

/// Appends the bytes of a slice to a byte buffer.
fn push_bytes(out: &mut Vec<u8>, bytes: &[u8])
    ensures
        final(out)@ == old(out)@ + bytes@,
{
    let n = bytes.len();
    let mut i: usize = 0;
    while i < n
        invariant
            n == bytes@.len(),
            i <= n,
            out@ == old(out)@ + bytes@.take(i as int),
        decreases n - i,
    {
        out.push(bytes[i]);
        assert(bytes@.take(i as int).push(bytes@[i as int]) =~= bytes@.take(i + 1));
        i = i + 1;
    }
    assert(bytes@.take(n as int) =~= bytes@);
}

impl AnyWrite for Vec<u8> {
    type Wstr = [u8];

    type Unit = u8;

    open spec fn written(&self) -> Seq<u8> {
        self@
    }

    /// A code is written as its UTF-8 encoding.
    open spec fn code_units(code: Seq<char>) -> Seq<u8> {
        vstd::utf8::encode_utf8(code)
    }

    open spec fn wstr_units(s: &[u8]) -> Seq<u8> {
        s@
    }

    proof fn lemma_empty_code() {
        assert(vstd::utf8::encode_utf8(Seq::<char>::empty()) =~= Seq::<u8>::empty());
    }

    fn same_text(a: &[u8], b: &[u8]) -> (r: bool) {
        same_bytes(a, b)
    }

    fn write_code(&mut self, code: &str) {
        push_bytes(self, code.as_bytes());
    }

    fn write_str(&mut self, s: &[u8]) {
        push_bytes(self, s);
    }
}

} // verus!
