//! The binary wire codec for login requests and responses.
//!
//! The layout is a compact serialization of the tagged data model: a string
//! is a little-endian u64 character count followed by one little-endian u32
//! code point per character; enums carry one tag byte before their payload.
//! A request is the username followed by the password; a response is an
//! optional outcome. Decoding is strict: trailing bytes, a truncated field
//! or an invalid code point fail the whole message, and a failed decode is
//! fatal to the connection that sent it.

use vstd::bytes::{
    lemma_auto_spec_u32_to_from_le_bytes, lemma_auto_spec_u64_to_from_le_bytes,
    spec_u32_from_le_bytes, spec_u32_to_le_bytes, spec_u64_from_le_bytes, spec_u64_to_le_bytes,
    u32_from_le_bytes, u32_to_le_bytes, u64_from_le_bytes, u64_to_le_bytes,
};
use vstd::prelude::*;
use vstd::slice::slice_subrange;

use crate::denied_reason::{DeniedReason, DeniedReasonV};
use crate::login_action::{LoginAction, LoginActionV};
use crate::role::Role;

verus! {

/// A login request as transmitted: the username and the cleartext password.
/// The password is hashed only at the server.
#[derive(Debug)]
pub struct Login {
    pub username: String,
    pub password: String,
}

/// The mathematical shape of a login request.
pub struct LoginV {
    pub username: Seq<char>,
    pub password: Seq<char>,
}

impl View for Login {
    type V = LoginV;

    open spec fn view(&self) -> LoginV {
        LoginV { username: self.username@, password: self.password@ }
    }
}

impl DeepView for Login {
    type V = LoginV;

    open spec fn deep_view(&self) -> LoginV {
        self.view()
    }
}

impl Clone for Login {
    fn clone(&self) -> (r: Self)
        ensures
            r@ == self@,
    {
        Login { username: self.username.clone(), password: self.password.clone() }
    }
}

impl PartialEq for Login {
    fn eq(&self, other: &Self) -> (r: bool) {
        self.username == other.username && self.password == other.password
    }
}

impl vstd::std_specs::cmp::PartialEqSpecImpl for Login {
    open spec fn obeys_eq_spec() -> bool {
        true
    }

    open spec fn eq_spec(&self, other: &Self) -> bool {
        self@ == other@
    }
}

/// A Unicode scalar value: a code point outside the surrogate range.
pub open spec fn scalar_value(w: u32) -> bool {
    w <= 0xD7FF || (0xE000 <= w && w <= 0x10FFFF)
}

/// Relies on `char::from_u32`: it returns `Some` exactly on Unicode scalar
/// values (0..=0xD7FF and 0xE000..=0x10FFFF), giving the character with that
/// code point.
pub assume_specification[ char::from_u32 ](i: u32) -> (r: Option<char>)
    ensures
        r == (if i <= 0xD7FF || (0xE000 <= i && i <= 0x10FFFF) {
            Some(i as char)
        } else {
            None::<char>
        }),
;

/// A character that carries a Unicode scalar value as its code point, which
/// the code point names back. Every actual character satisfies this; it is
/// stated explicitly because a mathematical `Seq<char>` is not bound to the
/// executable character range.
pub open spec fn valid_char(c: char) -> bool {
    scalar_value(c as u32) && ((c as u32) as char) == c
}

/// A string of valid characters.
pub open spec fn valid_chars(s: Seq<char>) -> bool {
    forall|i: int| 0 <= i < s.len() ==> valid_char(#[trigger] s[i])
}

/// A string that fits on the wire: its characters are Unicode scalar values
/// and its length fits the wire's length field.
pub open spec fn encodable_str(s: Seq<char>) -> bool {
    valid_chars(s) && s.len() <= u64::MAX
}

/// A request that fits on the wire.
pub open spec fn encodable_request(r: LoginV) -> bool {
    encodable_str(r.username) && encodable_str(r.password)
}

/// A response that fits on the wire.
pub open spec fn encodable_response(r: Option<LoginActionV>) -> bool {
    match r {
        Some(LoginActionV::Denied(DeniedReasonV::AccountLocked { reason })) => encodable_str(
            reason,
        ),
        _ => true,
    }
}

/// One character on the wire: its code point, little-endian.
pub open spec fn encoded_char(c: char) -> Seq<u8> {
    spec_u32_to_le_bytes(c as u32)
}

/// The characters of a string on the wire, in order.
pub open spec fn encoded_chars(s: Seq<char>) -> Seq<u8>
    decreases s.len(),
{
    if s.len() == 0 {
        Seq::empty()
    } else {
        encoded_char(s[0]) + encoded_chars(s.drop_first())
    }
}

/// A string on the wire: its character count, then its characters.
pub open spec fn encoded_str(s: Seq<char>) -> Seq<u8> {
    spec_u64_to_le_bytes(s.len() as u64) + encoded_chars(s)
}

/// A request on the wire: the username, then the password.
pub open spec fn encoded_request(r: LoginV) -> Seq<u8> {
    encoded_str(r.username) + encoded_str(r.password)
}

pub open spec fn role_byte(role: Role) -> u8 {
    match role {
        Role::Admin => 0u8,
        Role::User => 1u8,
        Role::Limited => 2u8,
    }
}

/// A denial reason on the wire: a tag byte, then the locked-account text if
/// there is one.
pub open spec fn encoded_reason(d: DeniedReasonV) -> Seq<u8> {
    match d {
        DeniedReasonV::PasswordExpired => seq![0u8],
        DeniedReasonV::AccountLocked { reason } => seq![1u8] + encoded_str(reason),
    }
}

/// An outcome on the wire: a tag byte, then the role or the reason.
pub open spec fn encoded_action(a: LoginActionV) -> Seq<u8> {
    match a {
        LoginActionV::Accept(role) => seq![0u8, role_byte(role)],
        LoginActionV::Denied(d) => seq![1u8] + encoded_reason(d),
    }
}

/// A response on the wire: one byte for absence, or a presence byte followed
/// by the outcome.
pub open spec fn encoded_response(r: Option<LoginActionV>) -> Seq<u8> {
    match r {
        None => seq![0u8],
        Some(a) => seq![1u8] + encoded_action(a),
    }
}

/// Reads `n` characters off the front of `b`, yielding them and the rest.
pub open spec fn decoded_chars(b: Seq<u8>, n: nat) -> Option<(Seq<char>, Seq<u8>)>
    decreases n,
{
    if n == 0 {
        Some((Seq::empty(), b))
    } else if b.len() < 4 {
        None
    } else {
        let w = spec_u32_from_le_bytes(b.subrange(0, 4));
        if scalar_value(w) {
            match decoded_chars(b.skip(4), (n - 1) as nat) {
                Some((s, rest)) => Some((seq![w as char] + s, rest)),
                None => None,
            }
        } else {
            None
        }
    }
}

/// Reads one string off the front of `b`, yielding it and the rest.
pub open spec fn decoded_str(b: Seq<u8>) -> Option<(Seq<char>, Seq<u8>)> {
    if b.len() < 8 {
        None
    } else {
        decoded_chars(b.skip(8), spec_u64_from_le_bytes(b.subrange(0, 8)) as nat)
    }
}

/// Decodes a whole request; trailing bytes fail it.
pub open spec fn decoded_request(b: Seq<u8>) -> Option<LoginV> {
    match decoded_str(b) {
        Some((username, rest)) => match decoded_str(rest) {
            Some((password, tail)) => if tail.len() == 0 {
                Some(LoginV { username, password })
            } else {
                None
            },
            None => None,
        },
        None => None,
    }
}

pub open spec fn decoded_role(t: u8) -> Option<Role> {
    if t == 0 {
        Some(Role::Admin)
    } else if t == 1 {
        Some(Role::User)
    } else if t == 2 {
        Some(Role::Limited)
    } else {
        None
    }
}

/// Reads one denial reason off the front of `b`, yielding it and the rest.
pub open spec fn decoded_reason(b: Seq<u8>) -> Option<(DeniedReasonV, Seq<u8>)> {
    if b.len() < 1 {
        None
    } else if b[0] == 0 {
        Some((DeniedReasonV::PasswordExpired, b.skip(1)))
    } else if b[0] == 1 {
        match decoded_str(b.skip(1)) {
            Some((reason, rest)) => Some((DeniedReasonV::AccountLocked { reason }, rest)),
            None => None,
        }
    } else {
        None
    }
}

/// Reads one outcome off the front of `b`, yielding it and the rest.
pub open spec fn decoded_action(b: Seq<u8>) -> Option<(LoginActionV, Seq<u8>)> {
    if b.len() < 1 {
        None
    } else if b[0] == 0 {
        if b.len() < 2 {
            None
        } else {
            match decoded_role(b[1]) {
                Some(role) => Some((LoginActionV::Accept(role), b.skip(2))),
                None => None,
            }
        }
    } else if b[0] == 1 {
        match decoded_reason(b.skip(1)) {
            Some((d, rest)) => Some((LoginActionV::Denied(d), rest)),
            None => None,
        }
    } else {
        None
    }
}

/// Decodes a whole response; trailing bytes fail it.
pub open spec fn decoded_response(b: Seq<u8>) -> Option<Option<LoginActionV>> {
    if b.len() < 1 {
        None
    } else if b[0] == 0 {
        if b.len() == 1 {
            Some(None)
        } else {
            None
        }
    } else if b[0] == 1 {
        match decoded_action(b.skip(1)) {
            Some((a, rest)) => if rest.len() == 0 {
                Some(Some(a))
            } else {
                None
            },
            None => None,
        }
    } else {
        None
    }
}

proof fn lemma_chars_round_trip(s: Seq<char>, rest: Seq<u8>)
    requires
        valid_chars(s),
    ensures
        decoded_chars(encoded_chars(s) + rest, s.len()) == Some((s, rest)),
    decreases s.len(),
{
    lemma_auto_spec_u32_to_from_le_bytes();
    if s.len() == 0 {
        assert(encoded_chars(s) + rest =~= rest);
    } else {
        let b = encoded_chars(s) + rest;
        let c = s[0];
        assert(b =~= encoded_char(c) + (encoded_chars(s.drop_first()) + rest));
        assert(b.subrange(0, 4) =~= spec_u32_to_le_bytes(c as u32));
        let w = spec_u32_from_le_bytes(b.subrange(0, 4));
        assert(w == c as u32);
        assert(scalar_value(w));
        assert(w as char == c);
        assert(b.skip(4) =~= encoded_chars(s.drop_first()) + rest);
        lemma_chars_round_trip(s.drop_first(), rest);
        assert(seq![c] + s.drop_first() =~= s);
    }
}

proof fn lemma_str_round_trip(s: Seq<char>, rest: Seq<u8>)
    requires
        encodable_str(s),
    ensures
        decoded_str(encoded_str(s) + rest) == Some((s, rest)),
{
    lemma_auto_spec_u64_to_from_le_bytes();
    let b = encoded_str(s) + rest;
    assert(b.subrange(0, 8) =~= spec_u64_to_le_bytes(s.len() as u64));
    assert(b.skip(8) =~= encoded_chars(s) + rest);
    lemma_chars_round_trip(s, rest);
}

/// Round trip for requests: decoding an encoded request yields the request,
/// for every username and password.
pub proof fn lemma_request_round_trip(r: LoginV)
    requires
        encodable_request(r),
    ensures
        decoded_request(encoded_request(r)) == Some(r),
{
    let b = encoded_request(r);
    assert(b =~= encoded_str(r.username) + (encoded_str(r.password) + Seq::<u8>::empty()));
    lemma_str_round_trip(r.username, encoded_str(r.password) + Seq::<u8>::empty());
    lemma_str_round_trip(r.password, Seq::<u8>::empty());
    assert(encoded_str(r.password) + Seq::<u8>::empty() =~= encoded_str(r.password)
        + Seq::<u8>::empty());
}

proof fn lemma_reason_round_trip(d: DeniedReasonV, rest: Seq<u8>)
    requires
        d matches DeniedReasonV::AccountLocked { reason } ==> encodable_str(reason),
    ensures
        decoded_reason(encoded_reason(d) + rest) == Some((d, rest)),
{
    match d {
        DeniedReasonV::PasswordExpired => {
            assert((seq![0u8] + rest)[0] == 0);
            assert((seq![0u8] + rest).skip(1) =~= rest);
        },
        DeniedReasonV::AccountLocked { reason } => {
            let b = encoded_reason(d) + rest;
            assert(b[0] == 1);
            assert(b.skip(1) =~= encoded_str(reason) + rest);
            lemma_str_round_trip(reason, rest);
        },
    }
}

proof fn lemma_action_round_trip(a: LoginActionV, rest: Seq<u8>)
    requires
        a matches LoginActionV::Denied(DeniedReasonV::AccountLocked { reason }) ==> encodable_str(
            reason,
        ),
    ensures
        decoded_action(encoded_action(a) + rest) == Some((a, rest)),
{
    match a {
        LoginActionV::Accept(role) => {
            let b = encoded_action(a) + rest;
            assert(b[0] == 0);
            assert(b[1] == role_byte(role));
            assert(decoded_role(role_byte(role)) == Some(role));
            assert(b.skip(2) =~= rest);
        },
        LoginActionV::Denied(d) => {
            let b = encoded_action(a) + rest;
            assert(b[0] == 1);
            assert(b.skip(1) =~= encoded_reason(d) + rest);
            lemma_reason_round_trip(d, rest);
        },
    }
}

proof fn lemma_encoded_chars_snoc(s: Seq<char>)
    requires
        s.len() > 0,
    ensures
        encoded_chars(s) == encoded_chars(s.drop_last()) + encoded_char(s.last()),
    decreases s.len(),
{
    if s.len() == 1 {
        assert(s.drop_first() =~= Seq::<char>::empty());
        assert(s.drop_last() =~= Seq::<char>::empty());
        assert(encoded_chars(s) =~= encoded_chars(s.drop_last()) + encoded_char(s.last()));
    } else {
        lemma_encoded_chars_snoc(s.drop_first());
        assert(s.drop_first().drop_last() =~= s.drop_last().drop_first());
        assert(s.drop_first().last() == s.last());
        assert(s.drop_last()[0] == s[0]);
        assert(encoded_chars(s) =~= encoded_chars(s.drop_last()) + encoded_char(s.last()));
    }
}

fn append_u64_le(out: &mut Vec<u8>, x: u64)
    ensures
        final(out)@ == old(out)@ + spec_u64_to_le_bytes(x),
{
    let mut b = u64_to_le_bytes(x);
    out.append(&mut b);
}

fn append_u32_le(out: &mut Vec<u8>, x: u32)
    ensures
        final(out)@ == old(out)@ + spec_u32_to_le_bytes(x),
{
    let mut b = u32_to_le_bytes(x);
    out.append(&mut b);
}

fn encode_str_into(out: &mut Vec<u8>, s: &str)
    ensures
        final(out)@ == old(out)@ + encoded_str(s@),
        encodable_str(s@),
{
    let n = s.unicode_len();
    append_u64_le(out, n as u64);
    let mut i: usize = 0;
    while i < n
        invariant
            n == s@.len(),
            0 <= i <= n,
            out@ == old(out)@ + spec_u64_to_le_bytes(n as u64) + encoded_chars(
                s@.subrange(0, i as int),
            ),
            forall|j: int| 0 <= j < i ==> valid_char(#[trigger] s@[j]),
        decreases n - i,
    {
        let c = s.get_char(i);
        append_u32_le(out, c as u32);
        proof {
            let t = s@.subrange(0, i + 1);
            assert(t.drop_last() =~= s@.subrange(0, i as int));
            assert(t.last() == s@[i as int]);
            lemma_encoded_chars_snoc(t);
            assert(out@ =~= old(out)@ + spec_u64_to_le_bytes(n as u64) + encoded_chars(t));
            assert(valid_char(s@[i as int]));
        }
        i = i + 1;
    }
    proof {
        assert(s@.subrange(0, n as int) =~= s@);
        assert(out@ =~= old(out)@ + encoded_str(s@));
    }
}

/// Encodes a login request for the wire.
pub fn encode_request(req: &Login) -> (out: Vec<u8>)
    ensures
        out@ == encoded_request(req@),
        encodable_request(req@),
{
    let mut out: Vec<u8> = Vec::new();
    encode_str_into(&mut out, req.username.as_str());
    encode_str_into(&mut out, req.password.as_str());
    proof {
        assert(out@ =~= encoded_request(req@));
    }
    out
}

fn role_byte_exec(role: &Role) -> (t: u8)
    ensures
        t == role_byte(*role),
{
    match role {
        Role::Admin => 0,
        Role::User => 1,
        Role::Limited => 2,
    }
}

/// Encodes a login response for the wire.
pub fn encode_response(r: &Option<LoginAction>) -> (out: Vec<u8>)
    ensures
        out@ == encoded_response(r.deep_view()),
        encodable_response(r.deep_view()),
{
    let mut out: Vec<u8> = Vec::new();
    match r {
        None => {
            out.push(0);
            proof {
                assert(out@ =~= encoded_response(r.deep_view()));
            }
        },
        Some(action) => {
            out.push(1);
            match action {
                LoginAction::Accept(role) => {
                    out.push(0);
                    out.push(role_byte_exec(role));
                    proof {
                        assert(out@ =~= encoded_response(r.deep_view()));
                    }
                },
                LoginAction::Denied(reason) => {
                    out.push(1);
                    match reason {
                        DeniedReason::PasswordExpired => {
                            out.push(0);
                            proof {
                                assert(out@ =~= encoded_response(r.deep_view()));
                            }
                        },
                        DeniedReason::AccountLocked { reason: text } => {
                            out.push(1);
                            encode_str_into(&mut out, text.as_str());
                            proof {
                                assert(out@ =~= encoded_response(r.deep_view()));
                            }
                        },
                    }
                },
            }
        },
    }
    out
}

/// The result of reading a prefix: the value read so far is prepended to
/// whatever the rest decodes to.
spec fn prepend_decoded(s: Seq<char>, r: Option<(Seq<char>, Seq<u8>)>) -> Option<
    (Seq<char>, Seq<u8>),
> {
    match r {
        Some((t, rest)) => Some((s + t, rest)),
        None => None,
    }
}

fn decode_str_from(b: &[u8], start: usize) -> (r: Option<(String, usize)>)
    requires
        start <= b@.len(),
    ensures
        match r {
            Some((s, end)) => {
                &&& start <= end <= b@.len()
                &&& decoded_str(b@.skip(start as int)) == Some((s@, b@.skip(end as int)))
            },
            None => decoded_str(b@.skip(start as int)) is None,
        },
{
    let ghost tail = b@.skip(start as int);
    if b.len() - start < 8 {
        return None;
    }
    let n64 = u64_from_le_bytes(slice_subrange(b, start, start + 8));
    proof {
        assert(b@.subrange(start as int, start as int + 8) =~= tail.subrange(0, 8));
    }
    let mut i: usize = start + 8;
    let mut s = String::new();
    let mut count: u64 = 0;
    proof {
        assert(b@.skip(start as int + 8) =~= tail.skip(8));
        match decoded_chars(b@.skip(i as int), n64 as nat) {
            Some((t, rest)) => {
                assert(s@ + t =~= t);
            },
            None => {},
        }
    }
    while count < n64
        invariant
            start + 8 <= i <= b@.len(),
            count <= n64,
            decoded_str(b@.skip(start as int)) == prepend_decoded(
                s@,
                decoded_chars(b@.skip(i as int), (n64 - count) as nat),
            ),
        decreases n64 - count,
    {
        let ghost rest0 = b@.skip(i as int);
        if b.len() - i < 4 {
            return None;
        }
        let w = u32_from_le_bytes(slice_subrange(b, i, i + 4));
        proof {
            assert(b@.subrange(i as int, i as int + 4) =~= rest0.subrange(0, 4));
        }
        match char::from_u32(w) {
            Some(c) => {
                s.push(c);
                i = i + 4;
                count = count + 1;
                proof {
                    assert(b@.skip(i as int) =~= rest0.skip(4));
                    match decoded_chars(b@.skip(i as int), (n64 - count) as nat) {
                        Some((t, rest)) => {
                            assert(s@ + t =~= s@.drop_last() + (seq![c] + t));
                        },
                        None => {},
                    }
                }
            },
            None => {
                return None;
            },
        }
    }
    proof {
        assert(decoded_chars(b@.skip(i as int), 0) == Some(
            (Seq::<char>::empty(), b@.skip(i as int)),
        ));
        assert(s@ + Seq::<char>::empty() =~= s@);
    }
    Some((s, i))
}

/// Decodes a login request from the wire; anything malformed — a truncated
/// field, an invalid code point, trailing bytes — yields nothing.
pub fn decode_request(b: &[u8]) -> (r: Option<Login>)
    ensures
        r.deep_view() == decoded_request(b@),
{
    proof {
        assert(b@.skip(0) =~= b@);
    }
    match decode_str_from(b, 0) {
        Some((username, i)) => match decode_str_from(b, i) {
            Some((password, j)) => {
                if j == b.len() {
                    proof {
                        assert(b@.skip(j as int) =~= Seq::<u8>::empty());
                    }
                    Some(Login { username, password })
                } else {
                    None
                }
            },
            None => None,
        },
        None => None,
    }
}

fn decode_reason_from(b: &[u8], start: usize) -> (r: Option<(DeniedReason, usize)>)
    requires
        start <= b@.len(),
    ensures
        match r {
            Some((d, end)) => {
                &&& start <= end <= b@.len()
                &&& decoded_reason(b@.skip(start as int)) == Some((d@, b@.skip(end as int)))
            },
            None => decoded_reason(b@.skip(start as int)) is None,
        },
{
    let ghost tail = b@.skip(start as int);
    if b.len() - start < 1 {
        return None;
    }
    let t = *vstd::slice::slice_index_get(b, start);
    proof {
        assert(tail[0] == b@[start as int]);
    }
    if t == 0 {
        proof {
            assert(tail.skip(1) =~= b@.skip(start as int + 1));
        }
        Some((DeniedReason::PasswordExpired, start + 1))
    } else if t == 1 {
        proof {
            assert(tail.skip(1) =~= b@.skip(start as int + 1));
        }
        match decode_str_from(b, start + 1) {
            Some((text, end)) => Some((DeniedReason::AccountLocked { reason: text }, end)),
            None => None,
        }
    } else {
        None
    }
}

fn decode_action_from(b: &[u8], start: usize) -> (r: Option<(LoginAction, usize)>)
    requires
        start <= b@.len(),
    ensures
        match r {
            Some((a, end)) => {
                &&& start <= end <= b@.len()
                &&& decoded_action(b@.skip(start as int)) == Some((a@, b@.skip(end as int)))
            },
            None => decoded_action(b@.skip(start as int)) is None,
        },
{
    let ghost tail = b@.skip(start as int);
    if b.len() - start < 1 {
        return None;
    }
    let t = *vstd::slice::slice_index_get(b, start);
    proof {
        assert(tail[0] == b@[start as int]);
    }
    if t == 0 {
        if b.len() - start < 2 {
            return None;
        }
        let rb = *vstd::slice::slice_index_get(b, start + 1);
        proof {
            assert(tail[1] == b@[start as int + 1]);
            assert(tail.skip(2) =~= b@.skip(start as int + 2));
        }
        let role = if rb == 0 {
            Role::Admin
        } else if rb == 1 {
            Role::User
        } else if rb == 2 {
            Role::Limited
        } else {
            return None;
        };
        Some((LoginAction::Accept(role), start + 2))
    } else if t == 1 {
        proof {
            assert(tail.skip(1) =~= b@.skip(start as int + 1));
        }
        match decode_reason_from(b, start + 1) {
            Some((d, end)) => Some((LoginAction::Denied(d), end)),
            None => None,
        }
    } else {
        None
    }
}

/// Decodes a login response from the wire; anything malformed yields
/// nothing.
pub fn decode_response(b: &[u8]) -> (r: Option<Option<LoginAction>>)
    ensures
        r.deep_view() == decoded_response(b@),
{
    if b.len() < 1 {
        return None;
    }
    let t = *vstd::slice::slice_index_get(b, 0);
    if t == 0 {
        if b.len() == 1 {
            Some(None)
        } else {
            None
        }
    } else if t == 1 {
        proof {
            assert(b@.skip(1) =~= b@.skip(1));
        }
        match decode_action_from(b, 1) {
            Some((a, end)) => {
                if end == b.len() {
                    proof {
                        assert(b@.skip(end as int) =~= Seq::<u8>::empty());
                    }
                    Some(Some(a))
                } else {
                    None
                }
            },
            None => None,
        }
    } else {
        None
    }
}

/// Round trip for responses: decoding an encoded response yields the
/// response, for every variant and payload, including a locked account with
/// arbitrary text.
pub proof fn lemma_response_round_trip(r: Option<LoginActionV>)
    requires
        encodable_response(r),
    ensures
        decoded_response(encoded_response(r)) == Some(r),
{
    match r {
        None => {
            assert(encoded_response(r) =~= seq![0u8]);
        },
        Some(a) => {
            let b = encoded_response(r);
            assert(b[0] == 1);
            assert(b.skip(1) =~= encoded_action(a) + Seq::<u8>::empty());
            lemma_action_round_trip(a, Seq::<u8>::empty());
        },
    }
}

} // verus!
