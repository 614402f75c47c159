//! The byte layout of sealed messages: a random nonce before the
//! ciphertext, and for password-sealed messages a salt before both.

use vstd::prelude::*;

verus! {

pub const SALT_LEN: usize = 16;

pub const NONCE_LEN: usize = 12;

/// The parts of a sealed message; `salt` is empty where the layout has none.
pub struct SealedParts {
    pub salt: Vec<u8>,
    pub nonce: Vec<u8>,
    pub ciphertext: Vec<u8>,
}

/// The bytes `data[from..to]` as a vector.
fn copy_range(data: &[u8], from: usize, to: usize) -> (r: Vec<u8>)
    requires
        from <= to <= data@.len(),
    ensures
        r@ == data@.subrange(from as int, to as int),
{
    let mut out: Vec<u8> = Vec::new();
    let mut i: usize = from;
    while i < to
        invariant
            from <= i <= to,
            to <= data@.len(),
            out@ == data@.subrange(from as int, i as int),
        decreases to - i,
    {
        out.push(data[i]);
        i = i + 1;
        assert(out@ =~= data@.subrange(from as int, i as int));
    }
    out
}

fn append_all(out: &mut Vec<u8>, more: &[u8])
    ensures
        final(out)@ == old(out)@ + more@,
{
    let ghost start = out@;
    let mut i: usize = 0;
    while i < more.len()
        invariant
            i <= more@.len(),
            out@ == start + more@.subrange(0, i as int),
        decreases more@.len() - i,
    {
        out.push(more[i]);
        i = i + 1;
        assert(out@ =~= start + more@.subrange(0, i as int));
    }
    assert(more@.subrange(0, more@.len() as int) =~= more@);
}

/// Lays out `salt`, `nonce` and `ciphertext` one after the other.
pub fn seal_frame(salt: &[u8], nonce: &[u8], ciphertext: &[u8]) -> (r: Vec<u8>)
    ensures
        r@ == salt@ + nonce@ + ciphertext@,
{
    let mut out: Vec<u8> = Vec::new();
    append_all(&mut out, salt);
    append_all(&mut out, nonce);
    append_all(&mut out, ciphertext);
    assert(out@ =~= salt@ + nonce@ + ciphertext@);
    out
}

/// Splits a sealed message into its parts; `salted` says whether it starts
/// with a salt. `None` when the message is too short to hold the salt and
/// the nonce.
pub fn open_frame(data: &[u8], salted: bool) -> (r: Option<SealedParts>)
    ensures
        ({
            let head: int = if salted {
                SALT_LEN as int
            } else {
                0
            };
            match r {
                None => data@.len() < head + NONCE_LEN,
                Some(p) => {
                    &&& data@.len() >= head + NONCE_LEN
                    &&& p.salt@ == data@.subrange(0, head)
                    &&& p.nonce@ == data@.subrange(head, head + NONCE_LEN)
                    &&& p.ciphertext@ == data@.subrange(head + NONCE_LEN, data@.len() as int)
                },
            }
        }),
{
    let head: usize = if salted {
        SALT_LEN
    } else {
        0
    };
    if data.len() < head + NONCE_LEN {
        return None;
    }
    let salt = copy_range(data, 0, head);
    let nonce = copy_range(data, head, head + NONCE_LEN);
    let ciphertext = copy_range(data, head + NONCE_LEN, data.len());
    Some(SealedParts { salt, nonce, ciphertext })
}

/// Opening what was sealed gives back its parts, whenever the salt and the
/// nonce have the lengths of the layout.
pub proof fn lemma_frame_round_trip(salt: Seq<u8>, nonce: Seq<u8>, ciphertext: Seq<u8>, salted: bool)
    requires
        salt.len() == (if salted {
            SALT_LEN as int
        } else {
            0
        }),
        nonce.len() == NONCE_LEN,
    ensures
        ({
            let data = salt + nonce + ciphertext;
            let head = salt.len() as int;
            &&& data.len() >= head + NONCE_LEN
            &&& data.subrange(0, head) == salt
            &&& data.subrange(head, head + NONCE_LEN) == nonce
            &&& data.subrange(head + NONCE_LEN, data.len() as int) == ciphertext
        }),
{
    let data = salt + nonce + ciphertext;
    let head = salt.len() as int;
    assert(data.subrange(0, head) =~= salt);
    assert(data.subrange(head, head + NONCE_LEN) =~= nonce);
    assert(data.subrange(head + NONCE_LEN, data.len() as int) =~= ciphertext);
}

} // verus!
