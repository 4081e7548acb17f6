//! What the match launch hands to the server-control API: the identity lists
//! of both teams, the team-name commands, the webhook authorization and the
//! spectator address.

use std::collections::HashMap;
use vstd::prelude::*;

use crate::session::{Lineup, Side};
use crate::trusted::{base64_of, encode_base64, push_char};

verus! {

broadcast use vstd::std_specs::hash::group_hash_axioms;

/// Position of the character that anonymization rewrites.
pub const ANON_INDEX: usize = 6;

/// The digit written at [`ANON_INDEX`].
pub const ANON_DIGIT: char = '1';

/// An identity with the character at [`ANON_INDEX`] rewritten to
/// [`ANON_DIGIT`]; shorter identities stay as they are.
pub open spec fn anonymized(id: Seq<char>) -> Seq<char> {
    if id.len() > ANON_INDEX {
        id.update(ANON_INDEX as int, ANON_DIGIT)
    } else {
        id
    }
}

/// The parts joined with commas.
pub open spec fn comma_joined(parts: Seq<Seq<char>>) -> Seq<char>
    decreases parts.len(),
{
    if parts.len() == 0 {
        Seq::empty()
    } else if parts.len() == 1 {
        parts[0]
    } else {
        comma_joined(parts.drop_last()) + seq![','] + parts.last()
    }
}

/// The anonymized identities of `players`, in order.
pub open spec fn identities_of(players: Seq<u64>, identities: Map<u64, String>) -> Seq<Seq<char>> {
    players.map_values(|p: u64| anonymized(identities[p]@))
}

/// Every one of `players` has an identity.
pub open spec fn all_known(players: Seq<u64>, identities: Map<u64, String>) -> bool {
    forall|i: int| 0 <= i < players.len() ==> identities.contains_key(#[trigger] players[i])
}

/// `p` is the first of `players` without an identity.
pub open spec fn first_unknown(players: Seq<u64>, identities: Map<u64, String>, p: u64) -> bool {
    exists|i: int|
        0 <= i < players.len() && players[i] == p && !identities.contains_key(p) && all_known(
            players.take(i),
            identities,
        )
}

/// Why a launch could not be prepared.
#[derive(Clone, Copy, Debug, PartialEq, Eq, Structural)]
pub enum LaunchError {
    /// This player has no identity on record.
    MissingIdentity(u64),
}

/// The two identity lists of a match: team 1 starts as T, team 2 as CT.
pub struct MatchTeams {
    pub team_t: String,
    pub team_ct: String,
}

/// Rewrites the character at [`ANON_INDEX`] of an identity to [`ANON_DIGIT`].
pub fn anonymize_identity(id: &str) -> (r: String)
    ensures
        r@ == anonymized(id@),
{
    let n = id.unicode_len();
    if n <= ANON_INDEX {
        return String::from_str(id);
    }
    let mut r = String::from_str(id.substring_char(0, ANON_INDEX));
    push_char(&mut r, ANON_DIGIT);
    r.append(id.substring_char(ANON_INDEX + 1, n));
    assert(r@ =~= anonymized(id@));
    r
}

/// The anonymized identities of `players`, joined with commas; the first
/// player without an identity otherwise.
pub fn identity_list(players: &Vec<u64>, identities: &HashMap<u64, String>) -> (r: Result<
    String,
    u64,
>)
    ensures
        r is Ok <==> all_known(players@, identities@),
        r matches Ok(s) ==> s@ == comma_joined(identities_of(players@, identities@)),
        r matches Err(p) ==> first_unknown(players@, identities@, p),
{
    let mut out = String::new();
    let mut i: usize = 0;
    while i < players.len()
        invariant
            i <= players@.len(),
            all_known(players@.take(i as int), identities@),
            out@ == comma_joined(identities_of(players@.take(i as int), identities@)),
        decreases players@.len() - i,
    {
        let p = players[i];
        let ghost prev = players@.take(i as int);
        let ghost next = players@.take(i + 1);
        match identities.get(&p) {
            None => {
                assert(players@[i as int] == p);
                return Err(p);
            },
            Some(id) => {
                let anon = anonymize_identity(id.as_str());
                if i > 0 {
                    push_char(&mut out, ',');
                }
                out.append(anon.as_str());
                proof {
                    assert(next.drop_last() =~= prev);
                    assert(identities_of(next, identities@).drop_last() =~= identities_of(
                        prev,
                        identities@,
                    ));
                    assert(identities_of(next, identities@).last() == anon@);
                    if i == 0 {
                        assert(out@ =~= comma_joined(identities_of(next, identities@)));
                    }
                    assert forall|k: int| 0 <= k < next.len() implies identities@.contains_key(
                        #[trigger] next[k],
                    ) by {
                        if k < i {
                            assert(next[k] == prev[k]);
                        }
                    }
                }
            },
        }
        i = i + 1;
    }
    assert(players@.take(players@.len() as int) =~= players@);
    Ok(out)
}

/// The identity lists for `lineup`: team B's list goes to the side it
/// chose, team A's to the other.
pub fn plan_match(lineup: &Lineup, identities: &HashMap<u64, String>) -> (r: Result<
    MatchTeams,
    LaunchError,
>)
    ensures
        r is Ok <==> all_known(lineup.team_a@ + lineup.team_b@, identities@),
        r matches Err(LaunchError::MissingIdentity(p)) ==> first_unknown(
            lineup.team_a@ + lineup.team_b@,
            identities@,
            p,
        ),
        r matches Ok(m) ==> {
            let a = comma_joined(identities_of(lineup.team_a@, identities@));
            let b = comma_joined(identities_of(lineup.team_b@, identities@));
            &&& m.team_ct@ == (if lineup.team_b_side == Side::Ct {
                b
            } else {
                a
            })
            &&& m.team_t@ == (if lineup.team_b_side == Side::Ct {
                a
            } else {
                b
            })
        },
{
    let ghost ab = lineup.team_a@ + lineup.team_b@;
    proof {
        assert(ab.take(lineup.team_a@.len() as int) =~= lineup.team_a@);
        assert forall|k: int| 0 <= k < lineup.team_b@.len() implies ab[lineup.team_a@.len() + k]
            == lineup.team_b@[k] by {}
    }
    let list_a = match identity_list(&lineup.team_a, identities) {
        Ok(s) => s,
        Err(p) => {
            proof {
                let i = choose|i: int|
                    0 <= i < lineup.team_a@.len() && lineup.team_a@[i] == p
                        && !identities@.contains_key(p) && all_known(
                        lineup.team_a@.take(i),
                        identities@,
                    );
                assert(ab.take(i) =~= lineup.team_a@.take(i));
                assert(ab[i] == p);
            }
            return Err(LaunchError::MissingIdentity(p));
        },
    };
    let list_b = match identity_list(&lineup.team_b, identities) {
        Ok(s) => s,
        Err(p) => {
            proof {
                let i = choose|i: int|
                    0 <= i < lineup.team_b@.len() && lineup.team_b@[i] == p
                        && !identities@.contains_key(p) && all_known(
                        lineup.team_b@.take(i),
                        identities@,
                    );
                let n = lineup.team_a@.len() as int;
                assert(ab[n + i] == p);
                let pre = ab.take(n + i);
                assert forall|k: int| 0 <= k < pre.len() implies identities@.contains_key(
                    #[trigger] pre[k],
                ) by {
                    if k < n {
                        assert(pre[k] == lineup.team_a@[k]);
                    } else {
                        assert(pre[k] == lineup.team_b@.take(i)[k - n]);
                    }
                }
                assert(!all_known(ab, identities@)) by {
                    assert(!identities@.contains_key(ab[n + i]));
                }
            }
            return Err(LaunchError::MissingIdentity(p));
        },
    };
    proof {
        let n = lineup.team_a@.len() as int;
        assert forall|k: int| 0 <= k < ab.len() implies identities@.contains_key(#[trigger] ab[k]) by {
            if k < n {
                assert(ab[k] == lineup.team_a@[k]);
            } else {
                assert(ab[k] == lineup.team_b@[k - n]);
            }
        }
    }
    match lineup.team_b_side {
        Side::Ct => Ok(MatchTeams { team_t: list_a, team_ct: list_b }),
        Side::T => Ok(MatchTeams { team_t: list_b, team_ct: list_a }),
    }
}

pub open spec fn is_digit(c: char) -> bool {
    '0' <= c && c <= '9'
}

pub open spec fn digit_value(c: char) -> int {
    (c as u32) - ('0' as u32)
}

/// Value of a string of decimal digits.
pub open spec fn digits_value(s: Seq<char>) -> int
    decreases s.len(),
{
    if s.len() == 0 {
        0
    } else {
        digits_value(s.drop_last()) * 10 + digit_value(s.last())
    }
}

/// The string is one or more decimal digits.
pub open spec fn all_digits(s: Seq<char>) -> bool {
    s.len() > 0 && forall|i: int| 0 <= i < s.len() ==> is_digit(#[trigger] s[i])
}

/// Length of the leading sign, if any.
pub open spec fn sign_len(s: Seq<char>) -> int {
    if s.len() > 0 && (s[0] == '-' || s[0] == '+') {
        1
    } else {
        0
    }
}

/// What `str::parse::<i64>` gives: an optional sign, then one or more
/// decimal digits, with a value that fits in an `i64`.
pub open spec fn parsed_i64(s: Seq<char>) -> Option<int> {
    let body = s.skip(sign_len(s));
    let v = if s.len() > 0 && s[0] == '-' {
        -digits_value(body)
    } else {
        digits_value(body)
    };
    if all_digits(body) && i64::MIN <= v <= i64::MAX {
        Some(v)
    } else {
        None
    }
}

/// Decimal digits of a natural number, without leading zeros.
pub open spec fn decimal_digits(n: nat) -> Seq<char>
    decreases n,
{
    if n < 10 {
        seq![('0' as u32 + n) as char]
    } else {
        decimal_digits(n / 10).push(('0' as u32 + n % 10) as char)
    }
}

/// Decimal form of an integer.
pub open spec fn decimal(v: int) -> Seq<char> {
    if v < 0 {
        seq!['-'] + decimal_digits((-v) as nat)
    } else {
        decimal_digits(v as nat)
    }
}

/// Where the port of a server address starts: after the first colon, or
/// after the first character when there is no colon.
pub open spec fn port_start(addr: Seq<char>) -> int {
    match addr.index_of_first(':') {
        Some(i) => i + 1,
        None => if addr.len() > 0 {
            1
        } else {
            0
        },
    }
}

/// The spectator address of a server: the same host, the port plus one.
/// A port that does not parse counts as 0.
pub open spec fn spectator_of(addr: Seq<char>) -> Seq<char> {
    let k = port_start(addr);
    let port = match parsed_i64(addr.skip(k)) {
        Some(v) => v,
        None => 0,
    };
    addr.take(k) + decimal(port + 1)
}

proof fn lemma_digits_value_grows(s: Seq<char>, k: int)
    requires
        0 <= k <= s.len(),
        forall|i: int| 0 <= i < s.len() ==> is_digit(#[trigger] s[i]),
    ensures
        digits_value(s) >= digits_value(s.take(k)) >= 0,
    decreases s.len(),
{
    if s.len() > 0 {
        if k == s.len() {
            assert(s.take(k) =~= s);
            lemma_digits_value_grows(s.drop_last(), s.len() - 1);
            assert(s.drop_last().take(s.len() - 1) =~= s.drop_last());
        } else {
            lemma_digits_value_grows(s.drop_last(), k);
            assert(s.drop_last().take(k) =~= s.take(k));
            lemma_digits_value_grows(s.drop_last(), s.len() - 1);
            assert(s.drop_last().take(s.len() - 1) =~= s.drop_last());
        }
    }
}

/// `str::parse::<i64>`, as [`parsed_i64`] states it.
pub fn parse_i64(s: &str) -> (r: Option<i64>)
    ensures
        match r {
            Some(v) => parsed_i64(s@) == Some(v as int),
            None => parsed_i64(s@) is None,
        },
{
    let n = s.unicode_len();
    let ghost sv = s@;
    if n == 0 {
        return None;
    }
    let c0 = s.get_char(0);
    let neg = c0 == '-';
    let start: usize = if c0 == '-' || c0 == '+' {
        1
    } else {
        0
    };
    let ghost body = sv.skip(start as int);
    assert(start == sign_len(sv));
    if start == n {
        return None;
    }
    assert(body.len() > 0);
    let limit: u64 = 0x8000_0000_0000_0000;
    let mut acc: u64 = 0;
    let mut i: usize = start;
    while i < n
        invariant
            sv == s@,
            n == sv.len(),
            start <= i <= n,
            body == sv.skip(start as int),
            start == sign_len(sv),
            neg == (sv.len() > 0 && sv[0] == '-'),
            limit == 0x8000_0000_0000_0000u64,
            forall|j: int| 0 <= j < i - start ==> is_digit(#[trigger] body[j]),
            acc as int == digits_value(body.take(i - start)),
            acc <= limit,
        decreases n - i,
    {
        let c = s.get_char(i);
        assert(body[i - start] == c);
        if !('0' <= c && c <= '9') {
            assert(!is_digit(body[i - start]));
            assert(!all_digits(body));
            return None;
        }
        assert((c as u32) <= ('9' as u32));
        let d = (c as u32 - '0' as u32) as u64;
        assert(d <= 9);
        assert(body.take(i - start + 1).drop_last() =~= body.take(i - start));
        assert(limit >= d);
        if acc > (limit - d) / 10 {
            proof {
                assert(digits_value(body.take(i - start + 1)) > limit) by (nonlinear_arith)
                    requires
                        digits_value(body.take(i - start + 1)) == acc * 10 + d,
                        acc > (limit - d) / 10,
                        d <= 9,
                ;
                if all_digits(body) {
                    lemma_digits_value_grows(body, i - start + 1);
                }
            }
            return None;
        }
        acc = acc * 10 + d;
        i = i + 1;
    }
    assert(body.take(n - start) =~= body);
    if neg {
        Some((0i128 - acc as i128) as i64)
    } else if acc <= 0x7FFF_FFFF_FFFF_FFFF {
        Some(acc as i64)
    } else {
        None
    }
}

/// Appends the decimal digits of `n` to `out`.
fn push_decimal_digits(out: &mut String, n: u128)
    ensures
        final(out)@ == old(out)@ + decimal_digits(n as nat),
    decreases n,
{
    if n >= 10 {
        push_decimal_digits(out, n / 10);
    }
    let d = (n % 10) as u32;
    let c = ('0' as u8 + d as u8) as char;
    assert(c == ('0' as u32 + (n as nat) % 10) as char);
    push_char(out, c);
    assert(final(out)@ =~= old(out)@ + decimal_digits(n as nat));
}

/// Decimal form of `v`.
pub fn format_decimal(v: i128) -> (r: String)
    requires
        v > i128::MIN,
    ensures
        r@ == decimal(v as int),
{
    let mut out = String::new();
    if v < 0 {
        push_char(&mut out, '-');
        push_decimal_digits(&mut out, (-v) as u128);
    } else {
        push_decimal_digits(&mut out, v as u128);
    }
    assert(out@ =~= decimal(v as int));
    out
}

/// The spectator address of a server address: the same host, the port plus
/// one.
pub fn spectator_address(addr: &str) -> (r: String)
    ensures
        r@ == spectator_of(addr@),
{
    let n = addr.unicode_len();
    let mut k: usize = 0;
    let mut found = false;
    while !found && k < n
        invariant
            n == addr@.len(),
            k <= n,
            forall|j: int| 0 <= j < k ==> addr@[j] != ':',
            found ==> k < n && addr@[k as int] == ':',
        decreases n - k + (if found {
            0int
        } else {
            1int
        }),
    {
        if addr.get_char(k) == ':' {
            found = true;
        } else {
            k = k + 1;
        }
    }
    let start: usize = if found {
        k + 1
    } else if n > 0 {
        1
    } else {
        0
    };
    proof {
        addr@.index_of_first_ensures(':');
        if found {
            assert(addr@[k as int] == ':');
            let f = addr@.index_of_first(':')->0;
            if f < k {
                assert(addr@[f] != ':');
            }
            if k < f {
                assert(addr@[k as int] != ':');
            }
        } else {
            if addr@.contains(':') {
                let f = choose|f: int| 0 <= f < addr@.len() && addr@[f] == ':';
                assert(addr@[f] != ':');
            }
        }
        assert(start == port_start(addr@));
    }
    let port: i64 = match parse_i64(addr.substring_char(start, n)) {
        Some(v) => v,
        None => 0,
    };
    assert(addr@.subrange(start as int, n as int) =~= addr@.skip(start as int));
    let mut r = String::from_str(addr.substring_char(0, start));
    let tail = format_decimal(port as i128 + 1);
    r.append(tail.as_str());
    assert(addr@.subrange(0, start as int) =~= addr@.take(start as int));
    r
}

/// The label of a team: the name its captain set, or "Team " and the
/// captain's display name.
pub open spec fn label_of(names: Map<u64, String>, captain: u64, captain_name: Seq<char>) -> Seq<
    char,
> {
    if names.contains_key(captain) {
        names[captain]@
    } else {
        "Team "@ + captain_name
    }
}

/// The label of the team of `captain`, from the team-name overrides.
pub fn team_label(names: &HashMap<u64, String>, captain: u64, captain_name: &str) -> (r: String)
    ensures
        r@ == label_of(names@, captain, captain_name@),
{
    match names.get(&captain) {
        Some(name) => name.clone(),
        None => {
            let mut r = String::from_str("Team ");
            r.append(captain_name);
            r
        },
    }
}

/// The two console commands that set the in-server team names: team 1 is
/// the team that starts as T, team 2 the one that starts as CT.
pub fn team_name_commands(team_b_side: Side, label_a: &str, label_b: &str) -> (r: (String, String))
    ensures
        r.0@ == "mp_teamname_1 "@ + (if team_b_side == Side::Ct {
            label_b@
        } else {
            label_a@
        }),
        r.1@ == "mp_teamname_2 "@ + (if team_b_side == Side::Ct {
            label_a@
        } else {
            label_b@
        }),
{
    let (first, second) = match team_b_side {
        Side::Ct => (label_b, label_a),
        Side::T => (label_a, label_b),
    };
    let mut one = String::from_str("mp_teamname_1 ");
    one.append(first);
    let mut two = String::from_str("mp_teamname_2 ");
    two.append(second);
    (one, two)
}

/// The credentials of basic authentication: `user:password`.
pub fn basic_credentials(user: &str, password: &str) -> (r: String)
    ensures
        r@ == user@ + ":"@ + password@,
{
    let mut r = String::from_str(user);
    r.append(":");
    r.append(password);
    r
}

/// A basic-authentication header value from encoded credentials.
pub fn basic_header(encoded: &str) -> (r: String)
    ensures
        r@ == "Basic "@ + encoded@,
{
    let mut r = String::from_str("Basic ");
    r.append(encoded);
    r
}

/// The value of the webhook authorization header: "Basic " and the base64
/// form of `user:password`.
pub fn webhook_authorization(user: &str, password: &str) -> (r: String)
    ensures
        r@ == "Basic "@ + base64_of(user@ + ":"@ + password@),
{
    let credentials = basic_credentials(user, password);
    let encoded = encode_base64(credentials.as_str());
    basic_header(encoded.as_str())
}

} // verus!
