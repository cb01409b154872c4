//! The stamp of the build file: a digest of all that it was written from.
//!
//! The stamp covers the text of the build file and the bytes of the plugin, so
//! that a plugin that was built anew, at the same path, has everything checked
//! again. It is kept beside the build file, as hexadecimal digits.
use vstd::prelude::*;
use vstd::string::*;

use crate::build::needs_write;
use crate::plugin::opt_text;
use crate::text::{chars_of, is_white, trim_text, trimmed, trimmed_end, trimmed_start};

verus! {

// ---------------------------------------------------------------------------
// Digests
// ---------------------------------------------------------------------------

/// The SHA-256 digest of some bytes.
pub uninterp spec fn sha256_of(data: Seq<u8>) -> Seq<u8>;

/// `sha2::Sha256::digest`: a digest of 32 bytes, which depends on the data
/// alone. What it is for given data is named and not described.
#[verifier::external_body]
fn sha256(data: &[u8]) -> (r: Vec<u8>)
    ensures
        r@ == sha256_of(data@),
        r@.len() == 32,
{
    <sha2::Sha256 as sha2::Digest>::digest(data).to_vec()
}

/// The bytes behind an optional reference.
pub open spec fn opt_bytes(data: Option<&[u8]>) -> Option<Seq<u8>> {
    match data {
        Some(d) => Some(d@),
        None => None,
    }
}

/// What the stamp is a digest of: the digests of the build file and, if there
/// is one, of the plugin.
pub open spec fn stamped(cmakelists: Seq<u8>, plugin: Option<Seq<u8>>) -> Seq<u8> {
    match plugin {
        Some(bytes) => sha256_of(cmakelists) + sha256_of(bytes),
        None => sha256_of(cmakelists),
    }
}

/// The digest of a build file and the plugin that it uses.
#[derive(Debug, Clone, PartialEq, Eq)]
pub struct Stamp {
    pub bytes: Vec<u8>,
}

impl Stamp {
    /// Whether this has the length of a digest.
    pub open spec fn well_formed(self) -> bool {
        self.bytes@.len() == 32
    }
}

/// The stamp of a build file and the plugin that it uses.
pub fn compute_stamp(cmakelists: &[u8], plugin: Option<&[u8]>) -> (r: Stamp)
    ensures
        r.bytes@ == sha256_of(stamped(cmakelists@, opt_bytes(plugin))),
        r.well_formed(),
{
    let mut data: Vec<u8> = sha256(cmakelists);
    if let Some(bytes) = plugin {
        let mut more: Vec<u8> = sha256(bytes);
        data.append(&mut more);
    }
    assert(data@ =~= stamped(cmakelists@, opt_bytes(plugin)));
    Stamp { bytes: sha256(data.as_slice()) }
}

// ---------------------------------------------------------------------------
// Hexadecimal digits
// ---------------------------------------------------------------------------

/// The hexadecimal digit of `n`.
pub open spec fn hex_digit(n: int) -> char {
    if n < 10 {
        (n + 48) as char
    } else {
        (n + 87) as char
    }
}

/// What a hexadecimal digit stands for.
pub open spec fn hex_value(c: char) -> Option<int> {
    if '0' <= c && c <= '9' {
        Some(c as int - 48)
    } else if 'a' <= c && c <= 'f' {
        Some(c as int - 87)
    } else {
        None
    }
}

/// Some bytes as hexadecimal digits, two for each.
pub open spec fn hex_text(bytes: Seq<u8>) -> Seq<char>
    decreases bytes.len(),
{
    if bytes.len() == 0 {
        seq![]
    } else {
        hex_text(bytes.drop_last()) + seq![
            hex_digit(bytes.last() as int / 16),
            hex_digit(bytes.last() as int % 16),
        ]
    }
}

proof fn lemma_hex_digit(n: int)
    requires
        0 <= n < 16,
    ensures
        hex_value(hex_digit(n)) == Some(n),
{
}

proof fn lemma_hex_text(bytes: Seq<u8>, i: int)
    requires
        0 <= i < bytes.len(),
    ensures
        hex_text(bytes).len() == 2 * bytes.len(),
        hex_text(bytes)[2 * i] == hex_digit(bytes[i] as int / 16),
        hex_text(bytes)[2 * i + 1] == hex_digit(bytes[i] as int % 16),
    decreases bytes.len(),
{
    let front = bytes.drop_last();
    if front.len() > 0 {
        if i < front.len() {
            lemma_hex_text(front, i);
        } else {
            lemma_hex_text(front, 0);
        }
    } else {
        assert(hex_text(front) =~= seq![]);
    }
}

/// Different bytes have different digits.
pub proof fn law_hex_tells_bytes_apart(a: Seq<u8>, b: Seq<u8>)
    requires
        hex_text(a) == hex_text(b),
    ensures
        a == b,
{
    if a.len() > 0 {
        lemma_hex_text(a, 0);
    }
    if b.len() > 0 {
        lemma_hex_text(b, 0);
    }
    assert forall|i: int| 0 <= i < a.len() implies a[i] == b[i] by {
        lemma_hex_text(a, i);
        lemma_hex_text(b, i);
        lemma_hex_digit(a[i] as int / 16);
        lemma_hex_digit(b[i] as int / 16);
        lemma_hex_digit(a[i] as int % 16);
        lemma_hex_digit(b[i] as int % 16);
    }
    assert(a =~= b);
}

fn digit(n: u8) -> (r: char)
    requires
        n < 16,
    ensures
        r == hex_digit(n as int),
{
    if n < 10 {
        (n + 48) as char
    } else {
        (n + 87) as char
    }
}

fn digit_value(c: char) -> (r: Option<u8>)
    ensures
        match r {
            Some(n) => hex_value(c) == Some(n as int) && n < 16,
            None => hex_value(c) is None,
        },
{
    if '0' <= c && c <= '9' {
        Some((c as u32 - 48) as u8)
    } else if 'a' <= c && c <= 'f' {
        Some((c as u32 - 87) as u8)
    } else {
        None
    }
}

impl Stamp {
    /// The stamp as hexadecimal digits.
    pub fn to_hex(&self) -> (r: String)
        ensures
            r@ == hex_text(self.bytes@),
    {
        let mut out: String = String::new();
        let mut i: usize = 0;
        assert(out@ =~= hex_text(self.bytes@.take(0)));
        while i < self.bytes.len()
            invariant
                i <= self.bytes@.len(),
                out@ == hex_text(self.bytes@.take(i as int)),
            decreases self.bytes@.len() - i,
        {
            let b: u8 = self.bytes[i];
            let ghost now = self.bytes@.take(i + 1);
            assert(now.drop_last() =~= self.bytes@.take(i as int));
            assert(now.last() == b);
            out.push(digit(b / 16));
            out.push(digit(b % 16));
            i = i + 1;
            assert(out@ =~= hex_text(now));
        }
        assert(self.bytes@.take(i as int) =~= self.bytes@);
        out
    }

    /// The stamp that some digits stand for, if they are those of a stamp.
    pub fn from_hex(s: &str) -> (r: Option<Stamp>)
        ensures
            match r {
                Some(stamp) => stamp.well_formed() && hex_text(stamp.bytes@) == s@,
                None => forall|b: Seq<u8>| b.len() == 32 ==> #[trigger] hex_text(b) != s@,
            },
    {
        let c: Vec<char> = chars_of(s);
        if c.len() != 64 {
            assert forall|b: Seq<u8>| b.len() == 32 implies #[trigger] hex_text(b) != s@ by {
                lemma_hex_text(b, 0);
            }
            return None;
        }
        let mut bytes: Vec<u8> = Vec::new();
        let mut i: usize = 0;
        assert(hex_text(bytes@) =~= s@.take(0));
        while i < 32
            invariant
                c@ == s@,
                c@.len() == 64,
                i <= 32,
                bytes@.len() == i,
                hex_text(bytes@) == s@.take(2 * i),
            decreases 32 - i,
        {
            let high: Option<u8> = digit_value(c[2 * i]);
            let low: Option<u8> = digit_value(c[2 * i + 1]);
            match (high, low) {
                (Some(h), Some(l)) => {
                    let ghost before = bytes@;
                    let b: u8 = h * 16 + l;
                    bytes.push(b);
                    proof {
                        assert(bytes@.drop_last() =~= before);
                        assert(b as int / 16 == h as int && b as int % 16 == l as int);
                        lemma_hex_value(c@[2 * i]);
                        lemma_hex_value(c@[2 * i + 1]);
                        assert(hex_text(bytes@) =~= s@.take(2 * (i + 1)));
                    }
                },
                _ => {
                    assert forall|b: Seq<u8>| b.len() == 32 implies #[trigger] hex_text(b)
                        != s@ by {
                        lemma_hex_text(b, i as int);
                        lemma_hex_digit(b[i as int] as int / 16);
                        lemma_hex_digit(b[i as int] as int % 16);
                    }
                    return None;
                },
            }
            i = i + 1;
        }
        assert(s@.take(64) =~= s@);
        Some(Stamp { bytes })
    }
}

proof fn lemma_hex_value(c: char)
    requires
        hex_value(c) is Some,
    ensures
        0 <= hex_value(c)->0 < 16,
        hex_digit(hex_value(c)->0) == c,
{
}

// ---------------------------------------------------------------------------
// Writing the build file
// ---------------------------------------------------------------------------

/// What becomes of a build file.
#[derive(Debug, Clone, Copy, PartialEq, Eq, Structural)]
pub enum WriteOutcome {
    /// It is written, with its stamp.
    Wrote,
    /// It stays as it is.
    Unchanged,
}

/// Whether a build file is written, and the stamp of what it holds then.
#[derive(Debug)]
pub struct StampedWrite {
    pub outcome: WriteOutcome,
    pub stamp: Stamp,
}

/// Whether the digits that were recorded are those of the stamp.
pub open spec fn is_recorded(recorded: Option<Seq<char>>, stamp: Seq<u8>) -> bool {
    recorded matches Some(text) && trimmed(text) == hex_text(stamp)
}

/// Whether a build file is there already, with the stamp `stamp`. `recorded`
/// is what is kept beside it, if anything is.
pub fn write_outcome(is_there: bool, recorded: Option<&str>, stamp: &Stamp) -> (r: WriteOutcome)
    requires
        stamp.well_formed(),
    ensures
        r is Unchanged <==> is_there && is_recorded(opt_text(recorded), stamp.bytes@),
{
    let text: &str = match recorded {
        Some(text) => text,
        None => {
            return WriteOutcome::Wrote;
        },
    };
    match Stamp::from_hex(trim_text(text).as_str()) {
        Some(old) => {
            if is_there && same_bytes(&old.bytes, &stamp.bytes) {
                WriteOutcome::Unchanged
            } else {
                proof {
                    if is_recorded(opt_text(recorded), stamp.bytes@) {
                        law_hex_tells_bytes_apart(old.bytes@, stamp.bytes@);
                    }
                }
                WriteOutcome::Wrote
            }
        },
        None => WriteOutcome::Wrote,
    }
}

/// Whether the build file `cmakelists`, for the plugin `plugin`, is written.
/// It stays as it is where a build file is there and the stamp that was
/// recorded with it is the same; a stamp that cannot be read counts for
/// nothing.
pub fn write_if_changed(
    is_there: bool,
    cmakelists: &[u8],
    recorded: Option<&str>,
    plugin: Option<&[u8]>,
) -> (r: StampedWrite)
    ensures
        r.stamp.bytes@ == sha256_of(stamped(cmakelists@, opt_bytes(plugin))),
        r.stamp.well_formed(),
        r.outcome is Unchanged <==> is_there && is_recorded(opt_text(recorded), r.stamp.bytes@),
{
    let stamp: Stamp = compute_stamp(cmakelists, plugin);
    StampedWrite { outcome: write_outcome(is_there, recorded, &stamp), stamp }
}

fn same_bytes(a: &Vec<u8>, b: &Vec<u8>) -> (r: bool)
    ensures
        r == (a@ == b@),
{
    !needs_write(Some(a), b)
}

/// A stamp is recognised once it has been recorded: a build file that is
/// written again with the same bytes and the same plugin stays as it is.
pub proof fn law_recorded_stamp_is_recognised(stamp: Seq<u8>)
    ensures
        is_recorded(Some(hex_text(stamp)), stamp),
{
    let text = hex_text(stamp);
    if stamp.len() > 0 {
        lemma_hex_text(stamp, 0);
        lemma_hex_text(stamp, stamp.len() - 1);
        lemma_hex_digit(stamp[0] as int / 16);
        lemma_hex_digit(stamp.last() as int % 16);
        assert(!is_white(text[0]));
        assert(!is_white(text.last()));
    }
    assert(trimmed_start(text) == text);
    assert(trimmed_end(text) == text);
}

} // verus!
