//! Access control: users with hashed passwords, the AUTH check, and the
//! ACL views.  Password hashing leans on an outside digest; the registry
//! and the decision are verified.
use vstd::prelude::*;
use vstd::string::*;

use sha2::Digest;

use crate::parser::{RedisValueRef, RespSpec, vw, vws};
use crate::table::{tbl_get, tbl_set};
use crate::util::bytes_eq;
use crate::{db_wf, RedisDb};

verus! {

/// One account: the lowercase hexadecimal digest of its password.
#[derive(Debug, PartialEq)]
pub struct User {
    pub password: Vec<u8>,
}

/// What the outside digest returns for a byte string; it depends on the
/// bytes alone.
pub uninterp spec fn sha256_of(data: Seq<u8>) -> Seq<u8>;

/// Relies on sha2's Sha256 through the Digest trait: a 32-byte digest of
/// the input, a function of the input bytes alone.
#[verifier::external_body]
fn sha256(data: &[u8]) -> (r: Vec<u8>)
    ensures
        r@ == sha256_of(data@),
        r@.len() == 32,
{
    sha2::Sha256::digest(data).to_vec()
}

/// The lowercase hexadecimal digit of a value below sixteen.
pub open spec fn hex_digit(d: nat) -> u8 {
    if d < 10 {
        (0x30 + d) as u8
    } else {
        (0x61 + (d - 10)) as u8
    }
}

/// A byte string rendered as lowercase hexadecimal, two digits per byte.
pub open spec fn hex_of(s: Seq<u8>) -> Seq<u8> {
    Seq::new(2 * s.len(), |i: int| if i % 2 == 0 {
        hex_digit((s[i / 2] / 16) as nat)
    } else {
        hex_digit((s[i / 2] % 16) as nat)
    })
}

/// Render a byte string as lowercase hexadecimal.
fn to_hex(b: &Vec<u8>) -> (r: Vec<u8>)
    ensures
        r@ == hex_of(b@),
{
    let ghost target = hex_of(b@);
    let mut out: Vec<u8> = Vec::new();
    let mut i: usize = 0;
    while i < b.len()
        invariant
            0 <= i <= b@.len(),
            target == hex_of(b@),
            out@ =~= target.take(2 * i),
        decreases b@.len() - i,
    {
        let x = b[i];
        let hi = x / 16;
        let lo = x % 16;
        let hc: u8 = if hi < 10 {
            0x30 + hi
        } else {
            0x61 + (hi - 10)
        };
        let lc: u8 = if lo < 10 {
            0x30 + lo
        } else {
            0x61 + (lo - 10)
        };
        out.push(hc);
        out.push(lc);
        proof {
            assert(target[2 * i] == hex_digit((b@[i as int] / 16) as nat));
            assert(target[2 * i + 1] == hex_digit((b@[i as int] % 16) as nat));
            assert(out@ =~= target.take(2 * i + 2));
        }
        i += 1;
    }
    assert(target.take(target.len() as int) =~= target);
    out
}

/// The stored form of a password: the lowercase hexadecimal of its digest.
pub fn password_hash(password: &[u8]) -> (r: Vec<u8>)
    ensures
        r@ == hex_of(sha256_of(password@)),
{
    let digest = sha256(password);
    to_hex(&digest)
}

/// The name of the authenticated account: always the default one.
pub fn aclwhoami(_db: &RedisDb) -> (r: RedisValueRef)
    ensures
        vw(r) == RespSpec::String(("default").spec_bytes()),
{
    RedisValueRef::String(("default").as_bytes_vec())
}

/// The ACL view of one account: its flags and its password digests.  An
/// account with no stored password reads as passwordless.
pub fn aclgetuser(db: &RedisDb, user: &[u8]) -> (r: RedisValueRef)
    ensures
        vw(r) == RespSpec::Array(
            seq![
                RespSpec::String(("flags").spec_bytes()),
                RespSpec::Array(
                    (match tbl_get(db.users@, user@) {
                        Some(_) => Seq::<RespSpec>::empty(),
                        None => seq![RespSpec::String(("nopass").spec_bytes())],
                    }),
                ),
                RespSpec::String(("passwords").spec_bytes()),
                RespSpec::Array(
                    (match tbl_get(db.users@, user@) {
                        Some(u) => seq![RespSpec::String(u.password@)],
                        None => Seq::<RespSpec>::empty(),
                    }),
                ),
            ],
        ),
{
    let mut flags: Vec<RedisValueRef> = Vec::new();
    let mut passwords: Vec<RedisValueRef> = Vec::new();
    match crate::table::tbl_get_ref(&db.users, user) {
        Some(u) => {
            passwords.push(RedisValueRef::String(crate::parser::copy_bytes(&u.password)));
            proof {
                assert(vws(passwords@) =~= seq![
                    RespSpec::String(tbl_get(db.users@, user@).unwrap().password@),
                ]);
                assert(vws(flags@) =~= Seq::<RespSpec>::empty());
            }
        },
        None => {
            flags.push(RedisValueRef::String(("nopass").as_bytes_vec()));
            proof {
                assert(vws(flags@) =~= seq![RespSpec::String(("nopass").spec_bytes())]);
                assert(vws(passwords@) =~= Seq::<RespSpec>::empty());
            }
        },
    }
    let fla = RedisValueRef::Array(flags);
    let ghost flav = vw(fla);
    proof {
        assert(flav == RespSpec::Array(
            (match tbl_get(db.users@, user@) {
                Some(_) => Seq::<RespSpec>::empty(),
                None => seq![RespSpec::String(("nopass").spec_bytes())],
            }),
        ));
    }
    let pwa = RedisValueRef::Array(passwords);
    let ghost pwav = vw(pwa);
    proof {
        assert(pwav == RespSpec::Array(
            (match tbl_get(db.users@, user@) {
                Some(u) => seq![RespSpec::String(u.password@)],
                None => Seq::<RespSpec>::empty(),
            }),
        ));
    }
    let mut parts: Vec<RedisValueRef> = Vec::new();
    parts.push(RedisValueRef::String(("flags").as_bytes_vec()));
    parts.push(fla);
    parts.push(RedisValueRef::String(("passwords").as_bytes_vec()));
    parts.push(pwa);
    proof {
        assert(vws(parts@) =~= seq![
            RespSpec::String(("flags").spec_bytes()),
            flav,
            RespSpec::String(("passwords").spec_bytes()),
            pwav,
        ]);
    }
    let r = RedisValueRef::Array(parts);
    proof {
        assert(vw(r) == RespSpec::Array(
            seq![
                RespSpec::String(("flags").spec_bytes()),
                flav,
                RespSpec::String(("passwords").spec_bytes()),
                pwav,
            ],
        ));
        assert(seq![
            RespSpec::String(("flags").spec_bytes()),
            flav,
            RespSpec::String(("passwords").spec_bytes()),
            pwav,
        ] =~= seq![
            RespSpec::String(("flags").spec_bytes()),
            RespSpec::Array(
                (match tbl_get(db.users@, user@) {
                    Some(_) => Seq::<RespSpec>::empty(),
                    None => seq![RespSpec::String(("nopass").spec_bytes())],
                }),
            ),
            RespSpec::String(("passwords").spec_bytes()),
            RespSpec::Array(
                (match tbl_get(db.users@, user@) {
                    Some(u) => seq![RespSpec::String(u.password@)],
                    None => Seq::<RespSpec>::empty(),
                }),
            ),
        ]);
    }
    r
}

/// Store or replace an account's password, hashed.
pub fn aclsetuser(db: &mut RedisDb, username: &[u8], password: &[u8]) -> (r: RedisValueRef)
    requires
        db_wf(*old(db)),
    ensures
        db_wf(*final(db)),
        vw(r) == RespSpec::SimpleString(("OK").spec_bytes()),
        tbl_get(final(db).users@, username@) matches Some(u) && u.password@ == hex_of(
            sha256_of(password@),
        ),
        forall|u2: Seq<u8>| u2 != username@ ==> #[trigger] tbl_get(final(db).users@, u2)
            == tbl_get(old(db).users@, u2),
        final(db).dict == old(db).dict,
        final(db).ttl == old(db).ttl,
        final(db).zsets == old(db).zsets,
        final(db).pubsub == old(db).pubsub,
        final(db).replicas == old(db).replicas,
        final(db).replication_offset == old(db).replication_offset,
{
    let hash = password_hash(password);
    tbl_set(&mut db.users, username, User { password: hash });
    RedisValueRef::SimpleString(("OK").as_bytes_vec())
}

/// Whether `password` opens the account `username`: an unknown account
/// accepts anything; a known one compares digests.
pub fn auth(db: &RedisDb, username: &[u8], password: &[u8]) -> (r: RedisValueRef)
    ensures
        vw(r) == (match tbl_get(db.users@, username@) {
            Some(u) => if u.password@ == hex_of(sha256_of(password@)) {
                RespSpec::SimpleString(("OK").spec_bytes())
            } else {
                RespSpec::Error(
                    ("WRONGPASS invalid username-password pair or user is disabled.")
                        .spec_bytes(),
                )
            },
            None => RespSpec::SimpleString(("OK").spec_bytes()),
        }),
{
    match crate::table::tbl_get_ref(&db.users, username) {
        Some(u) => {
            let hash = password_hash(password);
            if bytes_eq(u.password.as_slice(), hash.as_slice()) {
                RedisValueRef::SimpleString(("OK").as_bytes_vec())
            } else {
                RedisValueRef::Error(
                    ("WRONGPASS invalid username-password pair or user is disabled.")
                        .as_bytes_vec(),
                )
            }
        },
        None => RedisValueRef::SimpleString(("OK").as_bytes_vec()),
    }
}

/// Whether a command may run: an AUTH command decides by its own
/// credentials; everything else is allowed only while no account exists.
pub fn check_auth(db: &RedisDb, command: &crate::interpreter::RedisCommand) -> (r: bool)
    ensures
        r == (match *command {
            crate::interpreter::RedisCommand::Auth(u, p) => match tbl_get(db.users@, u@) {
                Some(acct) => acct.password@ == hex_of(sha256_of(p@)),
                None => true,
            },
            _ => db.users@.len() == 0,
        }),
{
    match command {
        crate::interpreter::RedisCommand::Auth(u, p) => {
            match crate::table::tbl_get_ref(&db.users, u.as_slice()) {
                Some(acct) => {
                    let hash = password_hash(p.as_slice());
                    bytes_eq(acct.password.as_slice(), hash.as_slice())
                },
                None => true,
            }
        },
        _ => db.users.len() == 0,
    }
}

} // verus!
