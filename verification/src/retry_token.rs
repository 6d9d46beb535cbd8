//! Address validation tokens for stateless retry: a fixed prefix, the
//! client's address, and the connection identifier that the client chose.
//! The token is not authenticated.

use vstd::prelude::*;
use crate::bytes::{copy_range, push_slice};

verus! {

/// Length in bytes of the prefix of every token.
pub const TOKEN_PREFIX_LEN: usize = 6;

/// The prefix of every token: the ASCII bytes of `quiche`.
pub open spec fn token_prefix() -> Seq<u8> {
    seq![0x71u8, 0x75u8, 0x69u8, 0x63u8, 0x68u8, 0x65u8]
}

/// The token for a client at `addr` that chose `dcid`.
pub open spec fn minted(addr: Seq<u8>, dcid: Seq<u8>) -> Seq<u8> {
    token_prefix() + addr + dcid
}

/// The connection identifier in a token that a client at `addr` presents, or
/// `None` where the token lacks the prefix or names another address.
pub open spec fn validated(addr: Seq<u8>, token: Seq<u8>) -> Option<Seq<u8>> {
    if token.len() >= TOKEN_PREFIX_LEN + addr.len() && token.subrange(0, TOKEN_PREFIX_LEN as int)
        == token_prefix() && token.subrange(TOKEN_PREFIX_LEN as int, TOKEN_PREFIX_LEN + addr.len())
        == addr {
        Some(token.skip(TOKEN_PREFIX_LEN + addr.len()))
    } else {
        None
    }
}

/// A token that was minted for an address validates for that address, and
/// gives the connection identifier back.
pub proof fn lemma_minted_token_validates(addr: Seq<u8>, dcid: Seq<u8>)
    ensures
        validated(addr, minted(addr, dcid)) == Some(dcid),
{
    let token = minted(addr, dcid);
    assert(token.subrange(0, TOKEN_PREFIX_LEN as int) =~= token_prefix());
    assert(token.subrange(TOKEN_PREFIX_LEN as int, TOKEN_PREFIX_LEN + addr.len()) =~= addr);
    assert(token.skip(TOKEN_PREFIX_LEN + addr.len()) =~= dcid);
}

/// Mints the token for a client at `addr` that chose `dcid`.
pub fn mint_token(addr: &[u8], dcid: &[u8]) -> (token: Vec<u8>)
    ensures
        token@ == minted(addr@, dcid@),
        validated(addr@, token@) == Some(dcid@),
{
    let mut token: Vec<u8> = Vec::new();
    token.push(0x71);
    token.push(0x75);
    token.push(0x69);
    token.push(0x63);
    token.push(0x68);
    token.push(0x65);
    assert(token@ =~= token_prefix());
    push_slice(&mut token, addr);
    push_slice(&mut token, dcid);
    proof {
        lemma_minted_token_validates(addr@, dcid@);
    }
    token
}

/// Takes the connection identifier from the token that a client at `addr`
/// presents.
pub fn validate_token(addr: &[u8], token: &[u8]) -> (dcid: Option<Vec<u8>>)
    ensures
        match dcid {
            Some(id) => validated(addr@, token@) == Some(id@),
            None => validated(addr@, token@) is None,
        },
{
    if token.len() < TOKEN_PREFIX_LEN {
        return None;
    }
    if token[0] != 0x71 || token[1] != 0x75 || token[2] != 0x69 || token[3] != 0x63 || token[4] != 0x68
        || token[5] != 0x65 {
        assert(token@.subrange(0, TOKEN_PREFIX_LEN as int) != token_prefix()) by {
            let head = token@.subrange(0, TOKEN_PREFIX_LEN as int);
            assert(head[0] == token@[0] && head[1] == token@[1] && head[2] == token@[2] && head[3]
                == token@[3] && head[4] == token@[4] && head[5] == token@[5]);
        }
        return None;
    }
    assert(token@.subrange(0, TOKEN_PREFIX_LEN as int) =~= token_prefix());
    if token.len() - TOKEN_PREFIX_LEN < addr.len() {
        return None;
    }
    let mut i: usize = 0;
    while i < addr.len()
        invariant
            0 <= i <= addr@.len(),
            TOKEN_PREFIX_LEN + addr@.len() <= token@.len() <= usize::MAX,
            forall|j: int| 0 <= j < i ==> token@[TOKEN_PREFIX_LEN + j] == addr@[j],
        decreases addr@.len() - i,
    {
        if token[TOKEN_PREFIX_LEN + i] != addr[i] {
            assert(token@.subrange(TOKEN_PREFIX_LEN as int, TOKEN_PREFIX_LEN + addr@.len())[i as int]
                != addr@[i as int]);
            return None;
        }
        i += 1;
    }
    assert(token@.subrange(TOKEN_PREFIX_LEN as int, TOKEN_PREFIX_LEN + addr@.len()) =~= addr@);
    let rest = copy_range(token, TOKEN_PREFIX_LEN + addr.len(), token.len());
    assert(rest@ =~= token@.skip(TOKEN_PREFIX_LEN + addr@.len()));
    Some(rest)
}

} // verus!
