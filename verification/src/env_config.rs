//! Environment-backed configuration: key naming, lookup precedence and
//! value parsing.
//!
//! The environment is handed to the library as a snapshot of variables, so
//! that every decision made on it is verified here.

use vstd::prelude::*;

use crate::error::Error;
use crate::text::{chars_of, owned, push_char, push_str, string_from_chars, text_eq};

verus! {

/// A snapshot of environment variables, in the order they were listed.
#[derive(Debug, Clone)]
pub struct EnvSnapshot {
    vars: Vec<(String, String)>,
}

/// The character sequences of a list of variables.
pub open spec fn vars_view(vars: Seq<(String, String)>) -> Seq<(Seq<char>, Seq<char>)> {
    vars.map_values(|v: (String, String)| (v.0@, v.1@))
}

/// The value of the first variable named `key`, if any.
pub open spec fn env_lookup(vars: Seq<(Seq<char>, Seq<char>)>, key: Seq<char>) -> Option<Seq<char>>
    decreases vars.len(),
{
    if vars.len() == 0 {
        None
    } else if vars[0].0 == key {
        Some(vars[0].1)
    } else {
        env_lookup(vars.drop_first(), key)
    }
}

impl View for EnvSnapshot {
    type V = Seq<(Seq<char>, Seq<char>)>;

    closed spec fn view(&self) -> Seq<(Seq<char>, Seq<char>)> {
        vars_view(self.vars@)
    }
}

impl EnvSnapshot {
    /// A snapshot holding the given variables.
    pub fn new(vars: Vec<(String, String)>) -> (s: Self)
        ensures
            s@ == vars_view(vars@),
    {
        EnvSnapshot { vars }
    }

    /// The value of the variable `key`, if it is set.
    pub fn var(&self, key: &str) -> (r: Option<String>)
        ensures
            r is Some <==> env_lookup(self@, key@) is Some,
            r matches Some(v) ==> env_lookup(self@, key@) == Some(v@),
    {
        let mut i: usize = 0;
        proof {
            assert(self@.skip(0) =~= self@);
        }
        while i < self.vars.len()
            invariant
                i <= self.vars.len(),
                env_lookup(self@, key@) == env_lookup(self@.skip(i as int), key@),
            decreases self.vars.len() - i,
        {
            proof {
                assert(self@.skip(i as int).drop_first() =~= self@.skip(i + 1));
            }
            if text_eq(self.vars[i].0.as_str(), key) {
                return Some(self.vars[i].1.clone());
            }
            i = i + 1;
        }
        None
    }
}

/// Whether a character is an ASCII letter or digit.
pub open spec fn is_ascii_alnum(c: char) -> bool {
    ('a' <= c <= 'z') || ('A' <= c <= 'Z') || ('0' <= c <= '9')
}

/// ASCII upper-casing of one character.
pub open spec fn ascii_upper(c: char) -> char {
    if 'a' <= c <= 'z' {
        ((c as u32) - 32) as char
    } else {
        c
    }
}

/// The shell-friendly form of a config key: letters and digits upper-cased,
/// every other character replaced by `_`.
pub open spec fn normalize_key_char(c: char) -> char {
    if is_ascii_alnum(c) {
        ascii_upper(c)
    } else {
        '_'
    }
}

fn ascii_upper_exec(c: char) -> (r: char)
    ensures
        r == ascii_upper(c),
{
    if 'a' <= c && c <= 'z' {
        ((c as u32 - 32) as u8) as char
    } else {
        c
    }
}

fn is_ascii_alnum_exec(c: char) -> (r: bool)
    ensures
        r == is_ascii_alnum(c),
{
    ('a' <= c && c <= 'z') || ('A' <= c && c <= 'Z') || ('0' <= c && c <= '9')
}

/// Converts a config key to its shell-friendly form: ASCII letters and
/// digits are upper-cased and every other character becomes `_`.
pub fn normalize_config_key(value: &str) -> (r: String)
    ensures
        r@ == value@.map_values(|c: char| normalize_key_char(c)),
{
    let cs = chars_of(value);
    let mut out: Vec<char> = Vec::new();
    let mut i: usize = 0;
    while i < cs.len()
        invariant
            cs@ == value@,
            i <= cs.len(),
            out@ == cs@.take(i as int).map_values(|c: char| normalize_key_char(c)),
        decreases cs.len() - i,
    {
        let c = cs[i];
        let m = if is_ascii_alnum_exec(c) {
            ascii_upper_exec(c)
        } else {
            '_'
        };
        out.push(m);
        proof {
            assert(cs@.take(i + 1).map_values(|c: char| normalize_key_char(c)) =~= cs@.take(
                i as int,
            ).map_values(|c: char| normalize_key_char(c)).push(normalize_key_char(c)));
        }
        i = i + 1;
    }
    proof {
        assert(cs@.take(cs.len() as int) =~= cs@);
    }
    string_from_chars(&out)
}

/// The shell-friendly spelling of one character of a camel-case property
/// name: an upper-case letter starts a new `_`-separated word, a lower-case
/// letter or digit is upper-cased, anything else becomes `_`.
pub open spec fn property_char_spec(c: char) -> Seq<char> {
    if 'A' <= c <= 'Z' {
        seq!['_', c]
    } else if is_ascii_alnum(c) {
        seq![ascii_upper(c)]
    } else {
        seq!['_']
    }
}

/// The shell-friendly form of a camel-case property name
/// (`followRedirects` becomes `FOLLOW_REDIRECTS`).
pub open spec fn env_property_spec(name: Seq<char>) -> Seq<char>
    decreases name.len(),
{
    if name.len() == 0 {
        seq![]
    } else {
        env_property_spec(name.drop_last()) + property_char_spec(name.last())
    }
}

/// Converts a camel-case property name to upper-case snake case.
pub fn env_property_name(value: &str) -> (r: String)
    ensures
        r@ == env_property_spec(value@),
{
    let cs = chars_of(value);
    let mut out = String::new();
    let mut i: usize = 0;
    while i < cs.len()
        invariant
            cs@ == value@,
            i <= cs.len(),
            out@ == env_property_spec(cs@.take(i as int)),
        decreases cs.len() - i,
    {
        let c = cs[i];
        if 'A' <= c && c <= 'Z' {
            push_char(&mut out, '_');
            push_char(&mut out, c);
        } else if is_ascii_alnum_exec(c) {
            push_char(&mut out, ascii_upper_exec(c));
        } else {
            push_char(&mut out, '_');
        }
        proof {
            assert(cs@.take(i + 1).drop_last() =~= cs@.take(i as int));
        }
        i = i + 1;
    }
    proof {
        assert(cs@.take(cs.len() as int) =~= cs@);
    }
    out
}

/// Where the values of one config key are read from.
#[derive(Debug, Clone)]
pub struct EnvConfigSource {
    mp_prefix: String,
    env_prefix: String,
}

/// The MicroProfile-style prefix for a config key: `<key>/mp-rest/`.
pub open spec fn mp_prefix_spec(config_key: Seq<char>) -> Seq<char> {
    config_key + "/mp-rest/"@
}

/// The shell-friendly prefix for a config key: `CATNAP_<KEY>_`.
pub open spec fn env_prefix_spec(config_key: Seq<char>) -> Seq<char> {
    "CATNAP_"@ + config_key.map_values(|c: char| normalize_key_char(c)) + "_"@
}

/// The MicroProfile-style prefix of global settings.
pub open spec fn global_mp_prefix() -> Seq<char> {
    "microprofile.rest.client."@
}

/// The shell-friendly prefix of global settings.
pub open spec fn global_env_prefix() -> Seq<char> {
    "CATNAP_"@
}

/// Looks a property up under two key spellings: the MicroProfile-style key
/// wins over the shell-friendly key. The result is the key that was found
/// and its value.
pub open spec fn lookup_two(
    env: Seq<(Seq<char>, Seq<char>)>,
    mp_key: Seq<char>,
    env_key: Seq<char>,
) -> Option<(Seq<char>, Seq<char>)> {
    if env_lookup(env, mp_key) is Some {
        Some((mp_key, env_lookup(env, mp_key)->0))
    } else if env_lookup(env, env_key) is Some {
        Some((env_key, env_lookup(env, env_key)->0))
    } else {
        None
    }
}

/// The value of a per-client property under the config key's prefixes.
pub open spec fn source_get_spec(
    mp_prefix: Seq<char>,
    env_prefix: Seq<char>,
    env: Seq<(Seq<char>, Seq<char>)>,
    property: Seq<char>,
) -> Option<(Seq<char>, Seq<char>)> {
    lookup_two(env, mp_prefix + property, env_prefix + env_property_spec(property))
}

/// The first of several properties that is set, in the order given.
pub open spec fn first_found(
    mp_prefix: Seq<char>,
    env_prefix: Seq<char>,
    env: Seq<(Seq<char>, Seq<char>)>,
    properties: Seq<Seq<char>>,
) -> Option<(Seq<char>, Seq<char>)>
    decreases properties.len(),
{
    if properties.len() == 0 {
        None
    } else {
        match source_get_spec(mp_prefix, env_prefix, env, properties[0]) {
            Some(found) => Some(found),
            None => first_found(mp_prefix, env_prefix, env, properties.drop_first()),
        }
    }
}

/// The character sequences of a slice of string slices.
pub open spec fn strs_view(s: Seq<&str>) -> Seq<Seq<char>> {
    s.map_values(|x: &str| x@)
}

fn concat(a: &str, b: &str) -> (r: String)
    ensures
        r@ == a@ + b@,
{
    let mut s = owned(a);
    push_str(&mut s, b);
    s
}

fn found_pair(key: String, value: String) -> (r: Option<(String, String)>)
    ensures
        r matches Some(p) && p.0@ == key@ && p.1@ == value@,
{
    Some((key, value))
}

/// Looks `mp_key` up, then `env_key`.
fn lookup_two_exec(env: &EnvSnapshot, mp_key: String, env_key: String) -> (r: Option<(String, String)>)
    ensures
        r is Some <==> lookup_two(env@, mp_key@, env_key@) is Some,
        r matches Some(p) ==> lookup_two(env@, mp_key@, env_key@) == Some((p.0@, p.1@)),
{
    match env.var(mp_key.as_str()) {
        Some(value) => found_pair(mp_key, value),
        None => match env.var(env_key.as_str()) {
            Some(value) => found_pair(env_key, value),
            None => None,
        },
    }
}

impl EnvConfigSource {
    /// The prefix of MicroProfile-style keys.
    pub closed spec fn mp_prefix(&self) -> Seq<char> {
        self.mp_prefix@
    }

    /// The prefix of shell-friendly keys.
    pub closed spec fn env_prefix(&self) -> Seq<char> {
        self.env_prefix@
    }

    /// The source for a config key: MicroProfile-style keys `<key>/mp-rest/...`
    /// and shell-friendly keys `CATNAP_<KEY>_...`.
    pub fn new(config_key: &str) -> (s: Self)
        ensures
            s.mp_prefix() == mp_prefix_spec(config_key@),
            s.env_prefix() == env_prefix_spec(config_key@),
    {
        let mp_prefix = concat(config_key, "/mp-rest/");
        let normalized = normalize_config_key(config_key);
        let mut env_prefix = owned("CATNAP_");
        push_str(&mut env_prefix, normalized.as_str());
        push_str(&mut env_prefix, "_");
        EnvConfigSource { mp_prefix, env_prefix }
    }

    /// Reads a per-client property: the MicroProfile-style key
    /// `<prefix><property>` wins over the shell-friendly key
    /// `CATNAP_<KEY>_<PROPERTY>`. Gives the key found and its value.
    pub fn get(&self, env: &EnvSnapshot, property: &str) -> (r: Option<(String, String)>)
        ensures
            r is Some <==> source_get_spec(self.mp_prefix(), self.env_prefix(), env@, property@) is Some,
            r matches Some(p) ==> source_get_spec(self.mp_prefix(), self.env_prefix(), env@, property@)
                == Some((p.0@, p.1@)),
    {
        let mp_key = concat(self.mp_prefix.as_str(), property);
        let name = env_property_name(property);
        let env_key = concat(self.env_prefix.as_str(), name.as_str());
        lookup_two_exec(env, mp_key, env_key)
    }

    /// Reads the first of several alternative properties that is set.
    pub fn get_any(&self, env: &EnvSnapshot, properties: &[&str]) -> (r: Option<(String, String)>)
        ensures
            r is Some <==> first_found(self.mp_prefix(), self.env_prefix(), env@, strs_view(properties@))
                is Some,
            r matches Some(p) ==> first_found(self.mp_prefix(), self.env_prefix(), env@, strs_view(properties@))
                == Some((p.0@, p.1@)),
    {
        let ghost all = strs_view(properties@);
        let mut i: usize = 0;
        proof {
            assert(all.skip(0) =~= all);
        }
        while i < properties.len()
            invariant
                i <= properties.len(),
                all == strs_view(properties@),
                first_found(self.mp_prefix(), self.env_prefix(), env@, all) == first_found(
                    self.mp_prefix(),
                    self.env_prefix(),
                    env@,
                    all.skip(i as int),
                ),
            decreases properties.len() - i,
        {
            proof {
                assert(all.skip(i as int).drop_first() =~= all.skip(i + 1));
                assert(all.skip(i as int)[0] == properties@[i as int]@);
            }
            let found = self.get(env, properties[i]);
            if found.is_some() {
                return found;
            }
            i = i + 1;
        }
        None
    }

    /// Reads a global property: `microprofile.rest.client.<property>` wins
    /// over `CATNAP_<PROPERTY>`.
    pub fn get_global(&self, env: &EnvSnapshot, property: &str) -> (r: Option<(String, String)>)
        ensures
            r is Some <==> source_get_spec(global_mp_prefix(), global_env_prefix(), env@, property@) is Some,
            r matches Some(p) ==> source_get_spec(global_mp_prefix(), global_env_prefix(), env@, property@)
                == Some((p.0@, p.1@)),
    {
        let mp_key = concat("microprofile.rest.client.", property);
        let name = env_property_name(property);
        let env_key = concat("CATNAP_", name.as_str());
        lookup_two_exec(env, mp_key, env_key)
    }

    /// Reads the first of several alternative global properties that is set.
    pub fn get_global_any(&self, env: &EnvSnapshot, properties: &[&str]) -> (r: Option<(String, String)>)
        ensures
            r is Some <==> first_found(global_mp_prefix(), global_env_prefix(), env@, strs_view(properties@))
                is Some,
            r matches Some(p) ==> first_found(global_mp_prefix(), global_env_prefix(), env@, strs_view(properties@))
                == Some((p.0@, p.1@)),
    {
        let ghost all = strs_view(properties@);
        let mut i: usize = 0;
        proof {
            assert(all.skip(0) =~= all);
        }
        while i < properties.len()
            invariant
                i <= properties.len(),
                all == strs_view(properties@),
                first_found(global_mp_prefix(), global_env_prefix(), env@, all) == first_found(
                    global_mp_prefix(),
                    global_env_prefix(),
                    env@,
                    all.skip(i as int),
                ),
            decreases properties.len() - i,
        {
            proof {
                assert(all.skip(i as int).drop_first() =~= all.skip(i + 1));
                assert(all.skip(i as int)[0] == properties@[i as int]@);
            }
            let found = self.get_global(env, properties[i]);
            if found.is_some() {
                return found;
            }
            i = i + 1;
        }
        None
    }
}

/// How a boolean config value is read: `true`, `TRUE`, `True` or `1` and
/// `false`, `FALSE`, `False` or `0`.
pub open spec fn config_bool_spec(value: Seq<char>) -> Option<bool> {
    if value == "true"@ || value == "TRUE"@ || value == "True"@ || value == "1"@ {
        Some(true)
    } else if value == "false"@ || value == "FALSE"@ || value == "False"@ || value == "0"@ {
        Some(false)
    } else {
        None
    }
}

/// The error for a config value that cannot be parsed.
pub open spec fn invalid_config_spec(key: Seq<char>, value: Seq<char>, message: Seq<char>, e: Error) -> bool {
    e matches Error::InvalidConfigValue { key: k, value: v, message: m } && k@ == key && v@ == value && m@
        == message
}

/// Builds the error for a config value that cannot be parsed.
pub fn invalid_config(key: &str, value: &str, message: &str) -> (e: Error)
    ensures
        invalid_config_spec(key@, value@, message@, e),
{
    Error::InvalidConfigValue { key: owned(key), value: owned(value), message: owned(message) }
}

/// Parses a boolean config value.
pub fn parse_config_bool(key: &str, value: &str) -> (r: Result<bool, Error>)
    ensures
        config_bool_spec(value@) matches Some(b) ==> r == Ok::<bool, Error>(b),
        config_bool_spec(value@) is None ==> (r matches Err(e) && invalid_config_spec(
            key@,
            value@,
            "expected true or false"@,
            e,
        )),
{
    if text_eq(value, "true") || text_eq(value, "TRUE") || text_eq(value, "True") || text_eq(value, "1") {
        Ok(true)
    } else if text_eq(value, "false") || text_eq(value, "FALSE") || text_eq(value, "False") || text_eq(
        value,
        "0",
    ) {
        Ok(false)
    } else {
        Err(invalid_config(key, value, "expected true or false"))
    }
}

/// Why an unsigned decimal number could not be read.
#[derive(Debug, Clone, Copy, PartialEq, Eq, Structural)]
pub enum IntErrorKind {
    /// The text is empty.
    Empty,
    /// The text holds a character that is not a decimal digit.
    InvalidDigit,
    /// The number does not fit in 64 bits.
    PosOverflow,
}

impl IntErrorKind {
    /// The message that std's `ParseIntError` shows for this kind.
    pub open spec fn text(self) -> Seq<char> {
        match self {
            IntErrorKind::Empty => "cannot parse integer from empty string"@,
            IntErrorKind::InvalidDigit => "invalid digit found in string"@,
            IntErrorKind::PosOverflow => "number too large to fit in target type"@,
        }
    }

    /// The message that std's `ParseIntError` shows for this kind.
    pub fn message(&self) -> (s: String)
        ensures
            s@ == self.text(),
    {
        match self {
            IntErrorKind::Empty => owned("cannot parse integer from empty string"),
            IntErrorKind::InvalidDigit => owned("invalid digit found in string"),
            IntErrorKind::PosOverflow => owned("number too large to fit in target type"),
        }
    }
}

/// Whether a character is a decimal digit.
pub open spec fn is_digit(c: char) -> bool {
    '0' <= c <= '9'
}

/// Reads decimal digits from left to right, stopping at the first
/// character that is no digit or at the first prefix whose value exceeds
/// `u64::MAX`.
pub open spec fn scan_digits(ds: Seq<char>) -> Result<nat, IntErrorKind>
    decreases ds.len(),
{
    if ds.len() == 0 {
        Ok(0)
    } else {
        match scan_digits(ds.drop_last()) {
            Err(e) => Err(e),
            Ok(v) => {
                let c = ds.last();
                if !is_digit(c) {
                    Err(IntErrorKind::InvalidDigit)
                } else if v * 10 + (c as int - '0' as int) > u64::MAX {
                    Err(IntErrorKind::PosOverflow)
                } else {
                    Ok((v * 10 + (c as int - '0' as int)) as nat)
                }
            },
        }
    }
}

/// How std reads a `u64` from text: an optional leading `+`, then decimal
/// digits.
pub open spec fn parse_u64_spec(s: Seq<char>) -> Result<nat, IntErrorKind> {
    if s.len() == 0 {
        Err(IntErrorKind::Empty)
    } else {
        let ds = if s[0] == '+' { s.drop_first() } else { s };
        if ds.len() == 0 {
            Err(IntErrorKind::InvalidDigit)
        } else {
            scan_digits(ds)
        }
    }
}

/// Once a prefix of the digits fails, the whole text fails the same way.
proof fn lemma_scan_prefix_err(ds: Seq<char>, k: int)
    requires
        0 <= k <= ds.len(),
        scan_digits(ds.take(k)) is Err,
    ensures
        scan_digits(ds) == scan_digits(ds.take(k)),
    decreases ds.len() - k,
{
    if k == ds.len() {
        assert(ds.take(k) =~= ds);
    } else {
        assert(ds.take(k + 1).drop_last() =~= ds.take(k));
        lemma_scan_prefix_err(ds, k + 1);
    }
}

proof fn lemma_scan_bound(ds: Seq<char>)
    ensures
        scan_digits(ds) matches Ok(v) ==> v <= u64::MAX,
    decreases ds.len(),
{
    if ds.len() > 0 {
        lemma_scan_bound(ds.drop_last());
    }
}

/// Reads an unsigned decimal number as std's `u64::from_str` does.
pub fn parse_u64(s: &str) -> (r: Result<u64, IntErrorKind>)
    ensures
        r matches Ok(v) ==> parse_u64_spec(s@) == Ok::<nat, IntErrorKind>(v as nat),
        r matches Err(e) ==> parse_u64_spec(s@) == Err::<nat, IntErrorKind>(e),
{
    let cs = chars_of(s);
    if cs.len() == 0 {
        return Err(IntErrorKind::Empty);
    }
    let start: usize = if cs[0] == '+' { 1 } else { 0 };
    let ghost ds = if cs@[0] == '+' { cs@.drop_first() } else { cs@ };
    if start == cs.len() {
        return Err(IntErrorKind::InvalidDigit);
    }
    let mut value: u64 = 0;
    let mut i: usize = start;
    proof {
        if cs@[0] == '+' {
            assert(ds =~= cs@.skip(1));
        } else {
            assert(ds =~= cs@.skip(0));
        }
        assert(ds.take(0) =~= Seq::<char>::empty());
    }
    while i < cs.len()
        invariant
            cs@ == s@,
            cs@.len() > 0,
            start <= i <= cs.len(),
            start == (if cs@[0] == '+' { 1usize } else { 0usize }),
            ds == cs@.skip(start as int),
            ds.len() > 0,
            parse_u64_spec(cs@) == scan_digits(ds),
            scan_digits(ds.take(i - start)) == Ok::<nat, IntErrorKind>(value as nat),
        decreases cs.len() - i,
    {
        let c = cs[i];
        proof {
            assert(ds.take(i - start + 1).drop_last() =~= ds.take(i - start));
            assert(ds.take(i - start + 1).last() == c);
        }
        if !('0' <= c && c <= '9') {
            proof {
                assert(scan_digits(ds.take(i - start + 1)) == Err::<nat, IntErrorKind>(IntErrorKind::InvalidDigit));
                lemma_scan_prefix_err(ds, i - start + 1);
            }
            return Err(IntErrorKind::InvalidDigit);
        }
        let d: u64 = (c as u32 - 48) as u64;
        if value > (u64::MAX - d) / 10 {
            proof {
                assert(value * 10 + d > u64::MAX) by (nonlinear_arith)
                    requires
                        value > (u64::MAX - d) / 10,
                        d <= 9,
                ;
            }
            proof {
                assert(scan_digits(ds.take(i - start + 1)) == Err::<nat, IntErrorKind>(IntErrorKind::PosOverflow));
                lemma_scan_prefix_err(ds, i - start + 1);
            }
            return Err(IntErrorKind::PosOverflow);
        }
        proof {
            assert(value * 10 + d <= u64::MAX) by (nonlinear_arith)
                requires
                    value <= (u64::MAX - d) / 10,
                    d <= 9,
            ;
        }
        value = value * 10 + d;
        i = i + 1;
    }
    proof {
        assert(ds.take(i - start) =~= ds);
    }
    Ok(value)
}

/// The `Duration` of a number of milliseconds (`Duration::from_millis`).
pub uninterp spec fn duration_from_millis_spec(millis: u64) -> std::time::Duration;

/// `std::time::Duration::from_millis`.
#[verifier::external_body]
pub fn duration_from_millis(millis: u64) -> (d: std::time::Duration)
    ensures
        d == duration_from_millis_spec(millis),
{
    std::time::Duration::from_millis(millis)
}

/// Parses a timeout given in milliseconds.
pub fn parse_config_duration_ms(key: &str, value: &str) -> (r: Result<std::time::Duration, Error>)
    ensures
        parse_u64_spec(value@) matches Ok(ms) ==> r == Ok::<std::time::Duration, Error>(
            duration_from_millis_spec(ms as u64),
        ),
        parse_u64_spec(value@) matches Err(kind) ==> (r matches Err(e) && invalid_config_spec(
            key@,
            value@,
            kind.text(),
            e,
        )),
{
    match parse_u64(value) {
        Ok(millis) => Ok(duration_from_millis(millis)),
        Err(kind) => {
            let message = kind.message();
            Err(invalid_config(key, value, message.as_str()))
        },
    }
}

/// Whether `pattern` occurs in `s` at position `i`.
pub open spec fn occurs_at(s: Seq<char>, pattern: Seq<char>, i: int) -> bool {
    0 <= i && i + pattern.len() <= s.len() && s.subrange(i, i + pattern.len()) == pattern
}

/// Whether `pattern` occurs somewhere in `s`.
pub open spec fn contains_spec(s: Seq<char>, pattern: Seq<char>) -> bool {
    exists|i: int| occurs_at(s, pattern, i)
}

/// Whether `s` contains `pattern`.
pub fn contains_text(s: &str, pattern: &str) -> (r: bool)
    ensures
        r == contains_spec(s@, pattern@),
{
    let cs = chars_of(s);
    let ps = chars_of(pattern);
    if ps.len() > cs.len() {
        proof {
            assert forall|i: int| !occurs_at(s@, pattern@, i) by {}
        }
        return false;
    }
    let mut i: usize = 0;
    while i <= cs.len() - ps.len()
        invariant
            cs@ == s@,
            ps@ == pattern@,
            ps.len() <= cs.len(),
            i <= cs.len() - ps.len() + 1,
            forall|k: int| 0 <= k < i ==> !occurs_at(s@, pattern@, k),
        decreases cs.len() - i,
    {
        let mut j: usize = 0;
        let mut same = true;
        while j < ps.len()
            invariant
                cs@ == s@,
                ps@ == pattern@,
                i + ps.len() <= cs.len(),
                j <= ps.len(),
                same == (forall|k: int| 0 <= k < j ==> cs@[i + k] == ps@[k]),
            decreases ps.len() - j,
        {
            if cs[i + j] != ps[j] {
                same = false;
            }
            j = j + 1;
        }
        if same {
            proof {
                assert(s@.subrange(i as int, i + pattern@.len()) =~= pattern@);
                assert(occurs_at(s@, pattern@, i as int));
            }
            return true;
        }
        proof {
            if s@.subrange(i as int, i + pattern@.len()) == pattern@ {
                let k = choose|k: int| 0 <= k < ps.len() && cs@[i + k] != ps@[k];
                assert(s@.subrange(i as int, i + pattern@.len())[k] == cs@[i + k]);
            }
        }
        i = i + 1;
    }
    proof {
        assert forall|k: int| !occurs_at(s@, pattern@, k) by {
            if 0 <= k && k + pattern@.len() <= s@.len() {
                assert(k < i);
            }
        }
    }
    false
}

/// How a proxy setting becomes a proxy URL: a value without a scheme
/// (no `://`) is taken as `host:port` and gets the `http://` scheme.
pub open spec fn proxy_url_spec(value: Seq<char>) -> Seq<char> {
    if contains_spec(value, "://"@) {
        value
    } else {
        "http://"@ + value
    }
}

/// Turns a proxy setting (`host:port` or URL) into a proxy URL.
pub fn proxy_address_to_url(value: &str) -> (r: String)
    ensures
        r@ == proxy_url_spec(value@),
{
    if contains_text(value, "://") {
        owned(value)
    } else {
        concat("http://", value)
    }
}

} // verus!
