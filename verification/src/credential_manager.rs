//! Credentials for the bridge bots and the homeserver, and the parsing of
//! their configuration text. Reading the files from disk is the caller's
//! business; everything from text to credentials happens here.

use vstd::prelude::*;

verus! {

use vstd::string::StringSliceAdditionalSpecFns;
use vstd::string::StrSliceExecFns;
use vstd::utf8::decode_utf8;
use vstd::utf8::encode_utf8;
use vstd::utf8::valid_utf8;

use crate::text::bytes_eq;

/// Why credential text was rejected.
#[derive(Debug, Clone, Copy, PartialEq, Eq, Structural)]
pub enum CredFileError {
    /// A line that is not `key=value`.
    InvalidLine,
    /// A key whose value is empty.
    EmptyValue,
    /// A `service_name` naming no supported platform.
    UnsupportedPlatform,
    /// A key set twice within one section.
    DoubleSet,
    /// A key this format does not know.
    UnknownKey,
    /// A section that ends before every required key is set.
    MissingValues,
    /// Two sections naming the same bot address.
    DuplicateBotAddress,
    /// Text that is not valid UTF-8 where a string is required.
    BadEncoding,
}

/// Why a password could not be checked.
#[derive(Debug, Clone, Copy, PartialEq, Eq, Structural)]
pub enum CredentialError {
    /// The stored hash could not be used by the verifier; authentication
    /// fails closed, reported as an error rather than a silent denial.
    VerifierFailure,
}

/// Credentials for the homeserver connection.
pub struct HomeserverCredentials {
    pub address: String,
    pub username: String,
    pub password: String,
}

/// Credentials of one bridge bot: the bot's address on the homeserver, the
/// external service's name, and the username and bcrypt password hash used
/// for client-to-server authentication.
pub struct BridgeBotCredentials {
    pub bot_address: String,
    pub service_name: String,
    pub username: String,
    /// The bcrypt hash of the client-to-server password.
    pub password: String,
}

/// What `bcrypt::verify` returns for a password and a stored hash: the
/// comparison's outcome, or nothing when the hash cannot be used.
pub uninterp spec fn bcrypt_verification(password: Seq<u8>, hash: Seq<char>) -> Option<bool>;

/// Relies on `bcrypt::verify`: its result is a function of the password and
/// the stored hash alone; it errs exactly when the hash cannot be used.
#[verifier::external_body]
fn bcrypt_verify(password: &[u8], hash: &str) -> (r: Result<bool, ()>)
    ensures
        (match bcrypt_verification(password@, hash@) {
            Some(b) => r == Ok::<bool, ()>(b),
            None => r is Err,
        }),
{
    match bcrypt::verify(password, hash) {
        Ok(b) => Ok(b),
        Err(_) => Err(()),
    }
}

impl BridgeBotCredentials {
    /// The stored bcrypt hash, for contracts.
    pub open spec fn password_hash(&self) -> Seq<char> {
        self.password@
    }

    pub fn new(bot_address: String, service_name: String, username: String, password: String) -> (c:
        BridgeBotCredentials)
        ensures
            c.bot_address == bot_address,
            c.service_name == service_name,
            c.username == username,
            c.password_hash() == password@,
    {
        BridgeBotCredentials { bot_address, service_name, username, password }
    }

    /// Checks a password against this bot's stored hash: a username other
    /// than the stored one is refused outright; otherwise the verifier
    /// decides, and a verifier failure is reported, never swallowed.
    pub fn validate_credentials(&self, username: &str, password: &[u8]) -> (r: Result<
        bool,
        CredentialError,
    >)
        ensures
            username.spec_bytes() != encode_utf8(self.username@) ==> r == Ok::<
                bool,
                CredentialError,
            >(false),
            username.spec_bytes() == encode_utf8(self.username@) ==> (match
                bcrypt_verification(password@, self.password_hash()) {
                Some(b) => r == Ok::<bool, CredentialError>(b),
                None => r == Err::<bool, CredentialError>(CredentialError::VerifierFailure),
            }),
    {
        if !bytes_eq(username.as_bytes(), self.username.as_str().as_bytes()) {
            return Ok(false);
        }
        match bcrypt_verify(password, self.password.as_str()) {
            Ok(res) => Ok(res),
            Err(()) => Err(CredentialError::VerifierFailure),
        }
    }
}

/// A line separator byte.
pub open spec fn is_line_sep(b: u8) -> bool {
    b == 10 || b == 13
}

/// An ASCII whitespace byte.
pub open spec fn is_ascii_space(b: u8) -> bool {
    b == 32 || b == 9 || b == 10 || b == 11 || b == 12 || b == 13
}

/// The first line-separator byte at or after position `i`.
pub open spec fn spec_first_sep(s: Seq<u8>, i: int) -> Option<int>
    decreases s.len() - i,
{
    if i < 0 || i >= s.len() {
        None
    } else if is_line_sep(s[i]) {
        Some(i)
    } else {
        spec_first_sep(s, i + 1)
    }
}

/// The text split at every line-separator byte; blank pieces are kept here
/// and skipped by the line handlers.
pub open spec fn spec_split_lines(s: Seq<u8>) -> Seq<Seq<u8>>
    decreases s.len(),
{
    match spec_first_sep(s, 0) {
        None => seq![s],
        Some(f) => {
            if 0 <= f < s.len() {
                seq![s.take(f)] + spec_split_lines(s.skip(f + 1))
            } else {
                seq![s]
            }
        },
    }
}

/// The byte sequences of a vector of lines.
pub open spec fn line_views(v: Seq<Vec<u8>>) -> Seq<Seq<u8>> {
    Seq::new(v.len(), |i: int| v[i]@)
}

proof fn lemma_first_sep_from(s: Seq<u8>, i: int, f: int)
    requires
        0 <= i <= f < s.len(),
        is_line_sep(s[f]),
        forall|k: int| i <= k < f ==> !is_line_sep(s[k]),
    ensures
        spec_first_sep(s, i) == Some(f),
    decreases f - i,
{
    if i < f {
        lemma_first_sep_from(s, i + 1, f);
    }
}

proof fn lemma_first_sep_none(s: Seq<u8>, i: int)
    requires
        0 <= i,
        forall|k: int| i <= k < s.len() ==> !is_line_sep(s[k]),
    ensures
        spec_first_sep(s, i) is None,
    decreases s.len() - i,
{
    if i < s.len() {
        lemma_first_sep_none(s, i + 1);
    }
}

/// Splits text into its lines.
pub fn split_lines(v: &Vec<u8>) -> (lines: Vec<Vec<u8>>)
    ensures
        line_views(lines@) == spec_split_lines(v@),
{
    let mut lines: Vec<Vec<u8>> = Vec::new();
    let mut start: usize = 0;
    let mut i: usize = 0;
    proof {
        assert(v@.skip(0) =~= v@);
        assert(line_views(lines@) =~~= Seq::<Seq<u8>>::empty());
        assert(line_views(lines@) + spec_split_lines(v@.skip(0)) =~~= spec_split_lines(v@));
    }
    while i < v.len()
        invariant
            start <= i <= v@.len(),
            forall|k: int| start <= k < i ==> !is_line_sep(v@[k]),
            line_views(lines@) + spec_split_lines(v@.skip(start as int)) =~~= spec_split_lines(
                v@,
            ),
        decreases v@.len() - i,
    {
        let b = v[i];
        if b == 10 || b == 13 {
            let ghost pre = line_views(lines@);
            let seg = crate::text::sub_bytes(v, start, i);
            lines.push(seg);
            proof {
                let tail = v@.skip(start as int);
                lemma_first_sep_from(tail, 0, i - start);
                assert(tail.take(i - start) =~= v@.subrange(start as int, i as int));
                assert(tail.skip(i - start + 1) =~= v@.skip(i + 1));
                assert(spec_split_lines(tail) =~~= seq![v@.subrange(start as int, i as int)]
                    + spec_split_lines(v@.skip(i + 1)));
                assert(line_views(lines@) =~~= pre.push(v@.subrange(start as int, i as int)));
                assert(line_views(lines@) + spec_split_lines(v@.skip(i + 1)) =~~=
                    spec_split_lines(v@));
            }
            start = i + 1;
        }
        i += 1;
    }
    let ghost pre = line_views(lines@);
    let seg = crate::text::sub_bytes(v, start, v.len());
    lines.push(seg);
    proof {
        let tail = v@.skip(start as int);
        lemma_first_sep_none(tail, 0);
        assert(tail =~= v@.subrange(start as int, v@.len() as int));
        assert(spec_split_lines(tail) =~~= seq![tail]);
        assert(line_views(lines@) =~~= pre.push(tail));
        assert(line_views(lines@) =~~= spec_split_lines(v@));
    }
    lines
}

/// The text with leading ASCII whitespace removed.
pub open spec fn spec_trim_front(s: Seq<u8>) -> Seq<u8>
    decreases s.len(),
{
    if s.len() > 0 && is_ascii_space(s[0]) {
        spec_trim_front(s.skip(1))
    } else {
        s
    }
}

/// The text with trailing ASCII whitespace removed.
pub open spec fn spec_trim_back(s: Seq<u8>) -> Seq<u8>
    decreases s.len(),
{
    if s.len() > 0 && is_ascii_space(s.last()) {
        spec_trim_back(s.drop_last())
    } else {
        s
    }
}

/// The text with surrounding ASCII whitespace removed.
pub open spec fn spec_trim(s: Seq<u8>) -> Seq<u8> {
    spec_trim_back(spec_trim_front(s))
}

proof fn lemma_trim_front_at(s: Seq<u8>, a: int)
    requires
        0 <= a <= s.len(),
        forall|k: int| 0 <= k < a ==> is_ascii_space(s[k]),
        a == s.len() || !is_ascii_space(s[a]),
    ensures
        spec_trim_front(s) =~= s.skip(a),
    decreases a,
{
    if a > 0 {
        lemma_trim_front_at(s.skip(1), a - 1);
        assert(s.skip(1).skip(a - 1) =~= s.skip(a));
    } else {
        assert(s.skip(0) =~= s);
    }
}

proof fn lemma_trim_back_at(s: Seq<u8>, z: int)
    requires
        0 <= z <= s.len(),
        forall|k: int| z <= k < s.len() ==> is_ascii_space(s[k]),
        z == 0 || !is_ascii_space(s[z - 1]),
    ensures
        spec_trim_back(s) =~= s.take(z),
    decreases s.len() - z,
{
    if z < s.len() {
        lemma_trim_back_at(s.drop_last(), z);
        assert(s.drop_last().take(z) =~= s.take(z));
    } else {
        assert(s.take(s.len() as int) =~= s);
    }
}

/// Whether a byte is ASCII whitespace.
fn ascii_space(b: u8) -> (r: bool)
    ensures
        r == is_ascii_space(b),
{
    b == 32 || b == 9 || b == 10 || b == 11 || b == 12 || b == 13
}

/// Removes surrounding ASCII whitespace.
pub fn trim_bytes(v: &Vec<u8>) -> (r: Vec<u8>)
    ensures
        r@ == spec_trim(v@),
{
    let mut a: usize = 0;
    while a < v.len() && ascii_space(v[a])
        invariant
            a <= v@.len(),
            forall|k: int| 0 <= k < a ==> is_ascii_space(v@[k]),
        decreases v@.len() - a,
    {
        a += 1;
    }
    let mut z: usize = v.len();
    while z > a && ascii_space(v[z - 1])
        invariant
            a <= z <= v@.len(),
            forall|k: int| z <= k < v@.len() ==> is_ascii_space(v@[k]),
        decreases z,
    {
        z -= 1;
    }
    let r = crate::text::sub_bytes(v, a, z);
    proof {
        lemma_trim_front_at(v@, a as int);
        let t = v@.skip(a as int);
        lemma_trim_back_at(t, z - a);
        assert(t.take(z - a) =~= v@.subrange(a as int, z as int));
        assert(r@ =~= spec_trim(v@));
    }
    r
}

/// Whether a line holds a bracketed section header: an opening bracket with
/// a closing bracket at least two positions later.
pub open spec fn spec_is_header(t: Seq<u8>) -> bool {
    exists|a: int, b: int|
        0 <= a && a + 2 <= b && b < t.len() && t[a] == 0x5b && t[b] == 0x5d
}

/// Detects a bracketed section header line.
fn is_header_line(t: &Vec<u8>) -> (r: bool)
    ensures
        r == spec_is_header(t@),
{
    let mut a: usize = 0;
    while a < t.len() && t[a] != 0x5b
        invariant
            a <= t@.len(),
            forall|k: int| 0 <= k < a ==> t@[k] != 0x5b,
        decreases t@.len() - a,
    {
        a += 1;
    }
    if a == t.len() {
        proof {
            assert(!spec_is_header(t@));
        }
        return false;
    }
    let mut b: usize = a + 1;
    while b < t.len() && (b - a < 2 || t[b] != 0x5d)
        invariant
            a + 1 <= b <= t@.len(),
            a < t@.len(),
            forall|k: int| a + 2 <= k < b ==> t@[k] != 0x5d,
        decreases t@.len() - b,
    {
        b += 1;
    }
    if b < t.len() {
        proof {
            assert(t@[a as int] == 0x5b && t@[b as int] == 0x5d);
        }
        true
    } else {
        proof {
            assert forall|x: int, y: int|
                !(0 <= x && x + 2 <= y && y < t@.len() && t@[x] == 0x5b && t@[y]
                    == 0x5d) by {
                if 0 <= x && x + 2 <= y && y < t@.len() && t@[x] == 0x5b && t@[y] == 0x5d {
                    assert(x >= a);
                    assert(y >= a + 2);
                    assert(t@[y] != 0x5d);
                }
            }
        }
        false
    }
}

/// The first equals sign at or after position `i`.
pub open spec fn spec_first_eq(s: Seq<u8>, i: int) -> Option<int>
    decreases s.len() - i,
{
    if i < 0 || i >= s.len() {
        None
    } else if s[i] == 0x3d {
        Some(i)
    } else {
        spec_first_eq(s, i + 1)
    }
}

/// A line split at its single equals sign; no equals sign, or more than
/// one, is malformed.
pub open spec fn spec_kv_split(t: Seq<u8>) -> Option<(Seq<u8>, Seq<u8>)> {
    match spec_first_eq(t, 0) {
        None => None,
        Some(f) => {
            if spec_first_eq(t, f + 1) is Some {
                None
            } else {
                Some((t.take(f), t.skip(f + 1)))
            }
        },
    }
}

proof fn lemma_first_eq_from(s: Seq<u8>, i: int, f: int)
    requires
        0 <= i <= f < s.len(),
        s[f] == 0x3d,
        forall|k: int| i <= k < f ==> s[k] != 0x3d,
    ensures
        spec_first_eq(s, i) == Some(f),
    decreases f - i,
{
    if i < f {
        lemma_first_eq_from(s, i + 1, f);
    }
}

proof fn lemma_first_eq_none(s: Seq<u8>, i: int)
    requires
        0 <= i,
        forall|k: int| i <= k < s.len() ==> s[k] != 0x3d,
    ensures
        spec_first_eq(s, i) is None,
    decreases s.len() - i,
{
    if i < s.len() {
        lemma_first_eq_none(s, i + 1);
    }
}

/// Splits a `key=value` line at its single equals sign.
fn kv_split(t: &Vec<u8>) -> (r: Option<(Vec<u8>, Vec<u8>)>)
    ensures
        (match (r, spec_kv_split(t@)) {
            (Some(kv), Some(skv)) => kv.0@ == skv.0 && kv.1@ == skv.1,
            (None, None) => true,
            _ => false,
        }),
{
    let mut f: usize = 0;
    while f < t.len() && t[f] != 0x3d
        invariant
            f <= t@.len(),
            forall|k: int| 0 <= k < f ==> t@[k] != 0x3d,
        decreases t@.len() - f,
    {
        f += 1;
    }
    if f == t.len() {
        proof {
            lemma_first_eq_none(t@, 0);
        }
        return None;
    }
    proof {
        lemma_first_eq_from(t@, 0, f as int);
    }
    let mut g: usize = f + 1;
    while g < t.len() && t[g] != 0x3d
        invariant
            f + 1 <= g <= t@.len() || g == f + 1,
            forall|k: int| f + 1 <= k < g ==> t@[k] != 0x3d,
        decreases t@.len() - g,
    {
        g += 1;
    }
    if g < t.len() {
        proof {
            lemma_first_eq_from(t@, f + 1, g as int);
        }
        return None;
    }
    proof {
        lemma_first_eq_none(t@, f + 1);
    }
    let key = crate::text::sub_bytes(t, 0, f);
    let value = crate::text::tail_bytes(t, f + 1);
    Some((key, value))
}

/// One homeserver credential line folded into the (url, username, password)
/// byte triple: blank and header lines are skipped, a `key=value` line sets
/// its key (the last setting wins), anything else is refused.
pub open spec fn spec_hs_line(st: (Seq<u8>, Seq<u8>, Seq<u8>), line: Seq<u8>) -> Result<
    (Seq<u8>, Seq<u8>, Seq<u8>),
    CredFileError,
> {
    let t = spec_trim(line);
    if t.len() == 0 {
        Ok(st)
    } else if spec_is_header(t) {
        Ok(st)
    } else {
        match spec_kv_split(t) {
            None => Err(CredFileError::InvalidLine),
            Some((k, v)) => {
                if k == "url".spec_bytes() {
                    Ok((v, st.1, st.2))
                } else if k == "username".spec_bytes() {
                    Ok((st.0, v, st.2))
                } else if k == "password".spec_bytes() {
                    Ok((st.0, st.1, v))
                } else {
                    Err(CredFileError::UnknownKey)
                }
            },
        }
    }
}

/// The homeserver credential lines folded from line `i` on.
pub open spec fn spec_hs_fold(lines: Seq<Seq<u8>>, i: int, st: (Seq<u8>, Seq<u8>, Seq<u8>)) -> Result<
    (Seq<u8>, Seq<u8>, Seq<u8>),
    CredFileError,
>
    decreases lines.len() - i,
{
    if i < 0 || i >= lines.len() {
        Ok(st)
    } else {
        match spec_hs_line(st, lines[i]) {
            Err(e) => Err(e),
            Ok(st2) => spec_hs_fold(lines, i + 1, st2),
        }
    }
}

/// What homeserver credential text parses to: the (url, username, password)
/// value bytes, or the first error.
pub open spec fn spec_parse_homeserver(s: Seq<u8>) -> Result<
    (Seq<u8>, Seq<u8>, Seq<u8>),
    CredFileError,
> {
    spec_hs_fold(spec_split_lines(s), 0, (Seq::empty(), Seq::empty(), Seq::empty()))
}

/// Parses homeserver credential text: `url`, `username` and `password`
/// lines under any bracketed header, last setting winning, every value
/// required to be UTF-8. The caller reads the file; this function does the
/// rest.
pub fn load_homeserver_creds(contents: &Vec<u8>) -> (r: Result<HomeserverCredentials, CredFileError>)
    ensures
        (match spec_parse_homeserver(contents@) {
            Err(e) => r == Err::<HomeserverCredentials, CredFileError>(e),
            Ok(t) => {
                if valid_utf8(t.0) && valid_utf8(t.1) && valid_utf8(t.2) {
                    r matches Ok(c) && c.address@ == decode_utf8(t.0) && c.username@
                        == decode_utf8(t.1) && c.password@ == decode_utf8(t.2)
                } else {
                    r == Err::<HomeserverCredentials, CredFileError>(CredFileError::BadEncoding)
                }
            },
        }),
{
    let lines = split_lines(contents);
    let mut url: Vec<u8> = Vec::new();
    let mut username: Vec<u8> = Vec::new();
    let mut password: Vec<u8> = Vec::new();
    let mut i: usize = 0;
    while i < lines.len()
        invariant
            i <= lines@.len(),
            line_views(lines@) == spec_split_lines(contents@),
            spec_hs_fold(line_views(lines@), i as int, (url@, username@, password@))
                == spec_parse_homeserver(contents@),
        decreases lines@.len() - i,
    {
        let t = trim_bytes(&lines[i]);
        proof {
            assert(line_views(lines@)[i as int] == lines@[i as int]@);
        }
        if t.len() == 0 {
        } else if is_header_line(&t) {
        } else {
            match kv_split(&t) {
                None => {
                    return Err(CredFileError::InvalidLine);
                },
                Some((k, v)) => {
                    if bytes_eq(k.as_slice(), "url".as_bytes()) {
                        url = v;
                    } else if bytes_eq(k.as_slice(), "username".as_bytes()) {
                        username = v;
                    } else if bytes_eq(k.as_slice(), "password".as_bytes()) {
                        password = v;
                    } else {
                        return Err(CredFileError::UnknownKey);
                    }
                },
            }
        }
        i += 1;
    }
    let address_s = match crate::text::string_from_utf8(url) {
        Some(s) => s,
        None => {
            return Err(CredFileError::BadEncoding);
        },
    };
    let username_s = match crate::text::string_from_utf8(username) {
        Some(s) => s,
        None => {
            return Err(CredFileError::BadEncoding);
        },
    };
    let password_s = match crate::text::string_from_utf8(password) {
        Some(s) => s,
        None => {
            return Err(CredFileError::BadEncoding);
        },
    };
    Ok(HomeserverCredentials { address: address_s, username: username_s, password: password_s })
}

/// The in-progress state of one bridge-bot credential section.
#[verifier::ext_equal]
pub ghost struct CredSectionModel {
    pub bot_address: Seq<char>,
    pub service_name: Seq<char>,
    pub username: Seq<char>,
    pub password: Seq<char>,
    pub seen: bool,
}

/// The state of a credential-file parse: the finished credentials as
/// (bot address, service name, username, password hash) character tuples,
/// and the open section.
#[verifier::ext_equal]
pub ghost struct CredParseModel {
    pub done: Seq<(Seq<char>, Seq<char>, Seq<char>, Seq<char>)>,
    pub cur: CredSectionModel,
}

/// The empty parse state.
pub open spec fn spec_cred_init() -> CredParseModel {
    CredParseModel {
        done: Seq::empty(),
        cur: CredSectionModel {
            bot_address: Seq::empty(),
            service_name: Seq::empty(),
            username: Seq::empty(),
            password: Seq::empty(),
            seen: false,
        },
    }
}

/// The first finished credential at or after position `k` with the given
/// bot address.
pub open spec fn spec_find_done_addr(
    done: Seq<(Seq<char>, Seq<char>, Seq<char>, Seq<char>)>,
    addr: Seq<char>,
    k: int,
) -> Option<int>
    decreases done.len() - k,
{
    if k < 0 || k >= done.len() {
        None
    } else if done[k].0 == addr {
        Some(k)
    } else {
        spec_find_done_addr(done, addr, k + 1)
    }
}

/// Closes the open section: a section that set nothing is skipped; a bot
/// address already taken is refused; a section missing any of its four keys
/// is refused; otherwise the credential is finished.
pub open spec fn spec_cred_finalize(st: CredParseModel) -> Result<CredParseModel, CredFileError> {
    if !st.cur.seen {
        Ok(st)
    } else if spec_find_done_addr(st.done, st.cur.bot_address, 0) is Some {
        Err(CredFileError::DuplicateBotAddress)
    } else if st.cur.bot_address.len() != 0 && st.cur.service_name.len() != 0
        && st.cur.username.len() != 0 && st.cur.password.len() != 0 {
        Ok(
            CredParseModel {
                done: st.done.push(
                    (st.cur.bot_address, st.cur.service_name, st.cur.username, st.cur.password),
                ),
                cur: spec_cred_init().cur,
            },
        )
    } else {
        Err(CredFileError::MissingValues)
    }
}

/// One credential line folded into the parse state: blank lines are
/// skipped; a header closes the open section; a `key=value` line must name
/// one of the four keys, with a nonempty value, set at most once per
/// section; bot address and username are lowercased; the service name must
/// name a supported platform.
pub open spec fn spec_cred_line(st: CredParseModel, line: Seq<u8>) -> Result<
    CredParseModel,
    CredFileError,
> {
    let t = spec_trim(line);
    if t.len() == 0 {
        Ok(st)
    } else if spec_is_header(t) {
        spec_cred_finalize(st)
    } else {
        match spec_kv_split(t) {
            None => Err(CredFileError::InvalidLine),
            Some((k, v)) => {
                if spec_trim(v).len() == 0 {
                    Err(CredFileError::EmptyValue)
                } else if k == "bot_address".spec_bytes() {
                    if !valid_utf8(v) {
                        Err(CredFileError::BadEncoding)
                    } else if st.cur.bot_address.len() != 0 {
                        Err(CredFileError::DoubleSet)
                    } else {
                        Ok(
                            CredParseModel {
                                cur: CredSectionModel {
                                    bot_address: crate::text::lower_of(decode_utf8(v)),
                                    seen: true,
                                    ..st.cur
                                },
                                ..st
                            },
                        )
                    }
                } else if k == "service_name".spec_bytes() {
                    if !(v == "discord".spec_bytes() || v == "instagram".spec_bytes() || v
                        == "fb_messenger".spec_bytes()) {
                        Err(CredFileError::UnsupportedPlatform)
                    } else if !valid_utf8(v) {
                        Err(CredFileError::BadEncoding)
                    } else if st.cur.service_name.len() != 0 {
                        Err(CredFileError::DoubleSet)
                    } else {
                        Ok(
                            CredParseModel {
                                cur: CredSectionModel {
                                    service_name: decode_utf8(v),
                                    seen: true,
                                    ..st.cur
                                },
                                ..st
                            },
                        )
                    }
                } else if k == "username".spec_bytes() {
                    if !valid_utf8(v) {
                        Err(CredFileError::BadEncoding)
                    } else if st.cur.username.len() != 0 {
                        Err(CredFileError::DoubleSet)
                    } else {
                        Ok(
                            CredParseModel {
                                cur: CredSectionModel {
                                    username: crate::text::lower_of(decode_utf8(v)),
                                    seen: true,
                                    ..st.cur
                                },
                                ..st
                            },
                        )
                    }
                } else if k == "password".spec_bytes() {
                    if !valid_utf8(v) {
                        Err(CredFileError::BadEncoding)
                    } else if st.cur.password.len() != 0 {
                        Err(CredFileError::DoubleSet)
                    } else {
                        Ok(
                            CredParseModel {
                                cur: CredSectionModel {
                                    password: decode_utf8(v),
                                    seen: true,
                                    ..st.cur
                                },
                                ..st
                            },
                        )
                    }
                } else {
                    Err(CredFileError::UnknownKey)
                }
            },
        }
    }
}

/// The credential lines folded from line `i` on, the last section closed at
/// the end.
pub open spec fn spec_cred_fold(lines: Seq<Seq<u8>>, i: int, st: CredParseModel) -> Result<
    Seq<(Seq<char>, Seq<char>, Seq<char>, Seq<char>)>,
    CredFileError,
>
    decreases lines.len() - i,
{
    if i < 0 || i >= lines.len() {
        match spec_cred_finalize(st) {
            Err(e) => Err(e),
            Ok(st2) => Ok(st2.done),
        }
    } else {
        match spec_cred_line(st, lines[i]) {
            Err(e) => Err(e),
            Ok(st2) => spec_cred_fold(lines, i + 1, st2),
        }
    }
}

/// What bridge-bot credential text parses to: the finished credential
/// tuples, or the first error.
pub open spec fn spec_parse_credentials(s: Seq<u8>) -> Result<
    Seq<(Seq<char>, Seq<char>, Seq<char>, Seq<char>)>,
    CredFileError,
> {
    spec_cred_fold(spec_split_lines(s), 0, spec_cred_init())
}

/// The executable state of a credential-file parse.
struct CredParser {
    done: Vec<BridgeBotCredentials>,
    bot_address: String,
    service_name: String,
    username: String,
    password: String,
    seen: bool,
}

impl View for CredParser {
    type V = CredParseModel;

    closed spec fn view(&self) -> CredParseModel {
        CredParseModel {
            done: Seq::new(
                self.done@.len(),
                |k: int|
                    (
                        self.done@[k].bot_address@,
                        self.done@[k].service_name@,
                        self.done@[k].username@,
                        self.done@[k].password@,
                    ),
            ),
            cur: CredSectionModel {
                bot_address: self.bot_address@,
                service_name: self.service_name@,
                username: self.username@,
                password: self.password@,
                seen: self.seen,
            },
        }
    }
}

impl CredParser {
    /// Closes the open section as [`spec_cred_finalize`] describes.
    fn finalize(&mut self) -> (r: Result<(), CredFileError>)
        ensures
            (match spec_cred_finalize(old(self)@) {
                Ok(st2) => r is Ok && final(self)@ == st2,
                Err(e) => r == Err::<(), CredFileError>(e),
            }),
    {
        if !self.seen {
            return Ok(());
        }
        let mut k: usize = 0;
        while k < self.done.len()
            invariant
                k <= self.done@.len(),
                self@ == old(self)@,
                old(self)@.cur.seen,
                spec_find_done_addr(self@.done, self@.cur.bot_address, 0) == spec_find_done_addr(
                    self@.done,
                    self@.cur.bot_address,
                    k as int,
                ),
            decreases self.done@.len() - k,
        {
            if self.done[k].bot_address == self.bot_address {
                proof {
                    assert(spec_find_done_addr(self@.done, self@.cur.bot_address, k as int)
                        == Some(k as int));
                }
                return Err(CredFileError::DuplicateBotAddress);
            }
            k += 1;
        }
        if self.bot_address.as_str().is_empty() || self.service_name.as_str().is_empty()
            || self.username.as_str().is_empty() || self.password.as_str().is_empty() {
            return Err(CredFileError::MissingValues);
        }
        let cred = BridgeBotCredentials::new(
            self.bot_address.clone(),
            self.service_name.clone(),
            self.username.clone(),
            self.password.clone(),
        );
        self.done.push(cred);
        self.bot_address = String::new();
        self.service_name = String::new();
        self.username = String::new();
        self.password = String::new();
        self.seen = false;
        proof {
            let st2 = match spec_cred_finalize(old(self)@) {
                Ok(st2) => st2,
                Err(_) => arbitrary(),
            };
            assert(self@.done =~~= st2.done);
            assert(self@ =~~= st2);
        }
        Ok(())
    }

    /// Folds one line in as [`spec_cred_line`] describes.
    fn handle_line(&mut self, line: &Vec<u8>) -> (r: Result<(), CredFileError>)
        ensures
            (match spec_cred_line(old(self)@, line@) {
                Ok(st2) => r is Ok && final(self)@ == st2,
                Err(e) => r == Err::<(), CredFileError>(e),
            }),
    {
        let t = trim_bytes(line);
        if t.len() == 0 {
            return Ok(());
        }
        if is_header_line(&t) {
            return self.finalize();
        }
        let (key, value) = match kv_split(&t) {
            Some(kv) => kv,
            None => {
                return Err(CredFileError::InvalidLine);
            },
        };
        let vt = trim_bytes(&value);
        if vt.len() == 0 {
            return Err(CredFileError::EmptyValue);
        }
        if bytes_eq(key.as_slice(), "bot_address".as_bytes()) {
            let s = match crate::text::str_from_bytes(value.as_slice()) {
                Some(s) => s,
                None => {
                    return Err(CredFileError::BadEncoding);
                },
            };
            let lowered = crate::text::to_lowercase(s);
            match set_credential(&mut self.bot_address, "bot_address", lowered) {
                Ok(()) => {
                    self.seen = true;
                    proof {
                        assert(self@ =~~= (match spec_cred_line(old(self)@, line@) {
                            Ok(st2) => st2,
                            Err(_) => arbitrary(),
                        }));
                    }
                    Ok(())
                },
                Err(e) => Err(e),
            }
        } else if bytes_eq(key.as_slice(), "service_name".as_bytes()) {
            if !(bytes_eq(value.as_slice(), "discord".as_bytes()) || bytes_eq(
                value.as_slice(),
                "instagram".as_bytes(),
            ) || bytes_eq(value.as_slice(), "fb_messenger".as_bytes())) {
                return Err(CredFileError::UnsupportedPlatform);
            }
            let s = match crate::text::str_from_bytes(value.as_slice()) {
                Some(s) => s,
                None => {
                    return Err(CredFileError::BadEncoding);
                },
            };
            match set_credential(&mut self.service_name, "service_name", s.to_owned()) {
                Ok(()) => {
                    self.seen = true;
                    proof {
                        assert(self@ =~~= (match spec_cred_line(old(self)@, line@) {
                            Ok(st2) => st2,
                            Err(_) => arbitrary(),
                        }));
                    }
                    Ok(())
                },
                Err(e) => Err(e),
            }
        } else if bytes_eq(key.as_slice(), "username".as_bytes()) {
            let s = match crate::text::str_from_bytes(value.as_slice()) {
                Some(s) => s,
                None => {
                    return Err(CredFileError::BadEncoding);
                },
            };
            let lowered = crate::text::to_lowercase(s);
            match set_credential(&mut self.username, "username", lowered) {
                Ok(()) => {
                    self.seen = true;
                    proof {
                        assert(self@ =~~= (match spec_cred_line(old(self)@, line@) {
                            Ok(st2) => st2,
                            Err(_) => arbitrary(),
                        }));
                    }
                    Ok(())
                },
                Err(e) => Err(e),
            }
        } else if bytes_eq(key.as_slice(), "password".as_bytes()) {
            let s = match crate::text::str_from_bytes(value.as_slice()) {
                Some(s) => s,
                None => {
                    return Err(CredFileError::BadEncoding);
                },
            };
            match set_credential(&mut self.password, "password", s.to_owned()) {
                Ok(()) => {
                    self.seen = true;
                    proof {
                        assert(self@ =~~= (match spec_cred_line(old(self)@, line@) {
                            Ok(st2) => st2,
                            Err(_) => arbitrary(),
                        }));
                    }
                    Ok(())
                },
                Err(e) => Err(e),
            }
        } else {
            Err(CredFileError::UnknownKey)
        }
    }
}

/// Parses bridge-bot credential text: bracketed sections of `bot_address`,
/// `service_name`, `username` and `password` lines, each section yielding
/// one credential. The caller reads the file; this function does the rest.
pub fn load_credential_file(contents: &Vec<u8>) -> (r: Result<
    Vec<BridgeBotCredentials>,
    CredFileError,
>)
    ensures
        (match (r, spec_parse_credentials(contents@)) {
            (Ok(v), Ok(sv)) => v@.len() == sv.len() && (forall|k: int|
                0 <= k < sv.len() ==> (#[trigger] v@[k]).bot_address@ == sv[k].0
                    && v@[k].service_name@ == sv[k].1 && v@[k].username@ == sv[k].2
                    && v@[k].password_hash() == sv[k].3),
            (Err(e), Err(se)) => e == se,
            _ => false,
        }),
{
    let lines = split_lines(contents);
    let mut parser = CredParser {
        done: Vec::new(),
        bot_address: String::new(),
        service_name: String::new(),
        username: String::new(),
        password: String::new(),
        seen: false,
    };
    proof {
        assert(parser@ =~~= spec_cred_init());
    }
    let mut i: usize = 0;
    while i < lines.len()
        invariant
            i <= lines@.len(),
            line_views(lines@) == spec_split_lines(contents@),
            spec_cred_fold(line_views(lines@), i as int, parser@) == spec_parse_credentials(
                contents@,
            ),
        decreases lines@.len() - i,
    {
        proof {
            assert(line_views(lines@)[i as int] == lines@[i as int]@);
        }
        match parser.handle_line(&lines[i]) {
            Ok(()) => {},
            Err(e) => {
                return Err(e);
            },
        }
        i += 1;
    }
    match parser.finalize() {
        Ok(()) => {
            proof {
                let sv = match spec_parse_credentials(contents@) {
                    Ok(sv) => sv,
                    Err(_) => arbitrary(),
                };
                assert(parser@.done =~~= sv);
            }
            Ok(parser.done)
        },
        Err(e) => Err(e),
    }
}

/// Sets a not-yet-set credential field; setting a field twice is an error
/// and leaves it unchanged.
pub fn set_credential(store: &mut String, key: &str, val: String) -> (r: Result<(), CredFileError>)
    ensures
        old(store)@.len() == 0 ==> r == Ok::<(), CredFileError>(()) && final(store)@ == val@,
        old(store)@.len() != 0 ==> r == Err::<(), CredFileError>(CredFileError::DoubleSet)
            && final(store)@ == old(store)@,
{
    if store.as_str().is_empty() {
        *store = val;
        Ok(())
    } else {
        Err(CredFileError::DoubleSet)
    }
}

} // verus!
