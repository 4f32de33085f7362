//! The output sink abstraction.
//!
//! The encoders are written once, against the [`AnyWrite`] trait, and serve a
//! character-oriented buffer ([`StringSink`]), a byte-oriented buffer
//! ([`ByteSink`]) and a bounded byte buffer that can run full
//! ([`BoundedSink`]).  A sink reports how much room it has left through its
//! `fits` function; a write fails exactly when the fragment does not fit, and
//! a failed write leaves the sink unchanged, so a composite encoder leaves
//! every fragment written before the first failure in place and performs no
//! rollback.

use vstd::prelude::*;
use vstd::string::StrSliceExecFns;
use vstd::string::StringExecFns;

verus! {

/// The single error kind of this library: the underlying sink could not take
/// a fragment, for example because a bounded buffer is full.
#[derive(Clone, Copy, Debug, PartialEq, Eq, Structural)]
pub struct SinkError;

/// After a successful write the sink holds `out` more characters, and its
/// remaining room has shrunk by exactly `out.len()`.
pub open spec fn wrote<W: AnyWrite>(pre: W, post: W, out: Seq<char>) -> bool {
    &&& post.contents() == pre.contents() + out
    &&& forall|m: nat| #[trigger] post.fits(m) <==> pre.fits(out.len() + m)
}

/// A failed write leaves the sink exactly as it was.
pub open spec fn unchanged<W: AnyWrite>(pre: W, post: W) -> bool {
    &&& post.contents() == pre.contents()
    &&& forall|m: nat| #[trigger] post.fits(m) <==> pre.fits(m)
}

/// After a failed composite write the sink has taken some prefix of `out`:
/// the fragments written before the first failure remain in the sink.
pub open spec fn partial<W: AnyWrite>(pre: W, post: W, out: Seq<char>) -> bool {
    exists|k: int|
        0 <= k <= out.len() && post.contents() == pre.contents() + #[trigger] out.subrange(0, k)
}

/// A sink that escape-code fragments are written into.  All fragments this
/// library emits are ASCII, so one character of contents is one byte in a
/// byte-oriented sink.
pub trait AnyWrite: Sized {
    /// The characters the sink holds.
    spec fn contents(&self) -> Seq<char>;

    /// Whether the sink can still take `extra` more characters.
    spec fn fits(&self, extra: nat) -> bool;

    /// Writing nothing always fits, and whatever fits, anything shorter fits
    /// too.
    proof fn lemma_fits(w: Self, shorter: nat, longer: nat)
        requires
            shorter <= longer,
        ensures
            w.fits(0),
            w.fits(longer) ==> w.fits(shorter),
    ;

    /// Appends an ASCII fragment.  The write succeeds exactly when the
    /// fragment fits, and a failed write changes nothing.
    fn write_str(&mut self, s: &str) -> (r: Result<(), SinkError>)
        requires
            s.is_ascii(),
        ensures
            r is Ok <==> old(self).fits(s@.len()),
            r is Ok ==> final(self).contents() == old(self).contents() + s@,
            r is Ok ==> forall|m: nat| #[trigger]
                final(self).fits(m) <==> old(self).fits(s@.len() + m),
            r is Err ==> final(self).contents() == old(self).contents(),
            r is Err ==> forall|m: nat| #[trigger] final(self).fits(m) <==> old(self).fits(m),
    ;
}

/// Chaining two successful writes is one successful write of the
/// concatenation.
pub proof fn lemma_wrote_wrote<W: AnyWrite>(w0: W, w1: W, w2: W, a: Seq<char>, b: Seq<char>)
    requires
        wrote(w0, w1, a),
        wrote(w1, w2, b),
    ensures
        wrote(w0, w2, a + b),
{
    assert(w2.contents() =~= w0.contents() + (a + b));
    assert forall|m: nat| #[trigger] w2.fits(m) <==> w0.fits((a + b).len() + m) by {
        assert(w2.fits(m) <==> w1.fits(b.len() + m));
        assert(w1.fits(b.len() + m) <==> w0.fits(a.len() + (b.len() + m)));
    }
}

/// A successful write followed by anything that took a prefix of `b` has, in
/// all, taken a prefix of the concatenation.
pub proof fn lemma_wrote_partial<W: AnyWrite>(w0: W, w1: W, w2: W, a: Seq<char>, b: Seq<char>)
    requires
        wrote(w0, w1, a),
        partial(w1, w2, b),
    ensures
        partial(w0, w2, a + b),
{
    let k = choose|k: int|
        0 <= k <= b.len() && w2.contents() == w1.contents() + #[trigger] b.subrange(0, k);
    assert(w2.contents() =~= w0.contents() + (a + b).subrange(0, a.len() + k));
}

/// A sink left unchanged has taken the empty prefix of anything.
pub proof fn lemma_unchanged_partial<W: AnyWrite>(w0: W, w1: W, out: Seq<char>)
    requires
        unchanged(w0, w1),
    ensures
        partial(w0, w1, out),
{
    assert(w1.contents() =~= w0.contents() + out.subrange(0, 0));
}

/// What has taken a prefix of the start of `full` has taken a prefix of
/// `full`.
pub proof fn lemma_partial_widen<W: AnyWrite>(w0: W, w1: W, shorter: Seq<char>, full: Seq<char>)
    requires
        partial(w0, w1, shorter),
        shorter.len() <= full.len(),
        shorter == full.subrange(0, shorter.len() as int),
    ensures
        partial(w0, w1, full),
{
    let k = choose|k: int|
        0 <= k <= shorter.len() && w1.contents() == w0.contents() + #[trigger] shorter.subrange(
            0,
            k,
        );
    assert(shorter.subrange(0, k) =~= full.subrange(0, k));
}

/// A character-oriented sink: an unbounded string buffer.  Every write
/// succeeds.
pub struct StringSink {
    /// The characters written so far.
    pub buf: String,
}

impl StringSink {
    /// Creates an empty string sink.
    pub fn new() -> (s: StringSink)
        ensures
            s.contents() == Seq::<char>::empty(),
            forall|m: nat| #[trigger] s.fits(m),
    {
        StringSink { buf: String::new() }
    }

    /// Hands the written characters out.
    pub fn into_string(self) -> (r: String)
        ensures
            r@ == self.contents(),
    {
        self.buf
    }
}

impl AnyWrite for StringSink {
    open spec fn contents(&self) -> Seq<char> {
        self.buf@
    }

    open spec fn fits(&self, extra: nat) -> bool {
        true
    }

    proof fn lemma_fits(w: Self, shorter: nat, longer: nat) {
    }

    fn write_str(&mut self, s: &str) -> (r: Result<(), SinkError>) {
        self.buf.append(s);
        Ok(())
    }
}

/// A byte-oriented sink: an unbounded byte buffer.  One ASCII character is
/// one byte.  Every write succeeds.
pub struct ByteSink {
    /// The bytes written so far.
    pub buf: Vec<u8>,
}

impl ByteSink {
    /// Creates an empty byte sink.
    pub fn new() -> (s: ByteSink)
        ensures
            s.contents() == Seq::<char>::empty(),
            forall|m: nat| #[trigger] s.fits(m),
    {
        let s = ByteSink { buf: Vec::new() };
        proof {
            assert(s.contents() =~= Seq::<char>::empty());
        }
        s
    }

    /// Hands the written bytes out.
    pub fn into_bytes(self) -> (r: Vec<u8>)
        ensures
            r@.map_values(|b: u8| b as char) == self.contents(),
    {
        self.buf
    }
}

impl AnyWrite for ByteSink {
    open spec fn contents(&self) -> Seq<char> {
        self.buf@.map_values(|b: u8| b as char)
    }

    open spec fn fits(&self, extra: nat) -> bool {
        true
    }

    proof fn lemma_fits(w: Self, shorter: nat, longer: nat) {
    }

    fn write_str(&mut self, s: &str) -> (r: Result<(), SinkError>) {
        let mut bytes = s.as_bytes_vec();
        proof {
            broadcast use vstd::string::is_ascii_spec_bytes;

            assert(bytes@ =~= Seq::new(s@.len(), |i: int| s@.index(i) as u8));
        }
        self.buf.append(&mut bytes);
        proof {
            assert(final(self).contents() =~= old(self).contents() + s@);
        }
        Ok(())
    }
}

/// A byte-oriented sink over a buffer of fixed capacity.  A write fails once
/// the fragment would not fit, and a failed write leaves the buffer as it
/// was.
pub struct BoundedSink {
    /// The bytes written so far.
    pub buf: Vec<u8>,
    /// The most bytes the sink will ever hold.
    pub capacity: usize,
}

impl BoundedSink {
    /// Creates an empty sink that takes at most `capacity` bytes.
    pub fn new(capacity: usize) -> (s: BoundedSink)
        ensures
            s.contents() == Seq::<char>::empty(),
            s.capacity == capacity,
            forall|m: nat| #[trigger] s.fits(m) <==> m <= capacity,
    {
        let s = BoundedSink { buf: Vec::new(), capacity };
        proof {
            assert(s.contents() =~= Seq::<char>::empty());
        }
        s
    }

    /// Hands the written bytes out.
    pub fn into_bytes(self) -> (r: Vec<u8>)
        ensures
            r@.map_values(|b: u8| b as char) == self.contents(),
    {
        self.buf
    }
}

impl AnyWrite for BoundedSink {
    open spec fn contents(&self) -> Seq<char> {
        self.buf@.map_values(|b: u8| b as char)
    }

    open spec fn fits(&self, extra: nat) -> bool {
        extra == 0 || self.buf@.len() + extra <= self.capacity
    }

    proof fn lemma_fits(w: Self, shorter: nat, longer: nat) {
    }

    fn write_str(&mut self, s: &str) -> (r: Result<(), SinkError>) {
        let n = s.unicode_len();
        if n == 0 {
            proof {
                assert(final(self).contents() =~= old(self).contents() + s@);
            }
            return Ok(());
        }
        if self.buf.len() > self.capacity || n > self.capacity - self.buf.len() {
            return Err(SinkError);
        }
        let mut bytes = s.as_bytes_vec();
        proof {
            broadcast use vstd::string::is_ascii_spec_bytes;

            assert(bytes@ =~= Seq::new(s@.len(), |i: int| s@.index(i) as u8));
        }
        self.buf.append(&mut bytes);
        proof {
            assert(final(self).contents() =~= old(self).contents() + s@);
        }
        Ok(())
    }
}

} // verus!
