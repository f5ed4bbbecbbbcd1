//! Reversible textual codec for the settings document.
//!
//! The stored form is a line-oriented structured text: a `[minecraft]`
//! section, an optional `[discord]` section and a `[logging]` section, each
//! a run of `key = value` lines. Values are quoted strings (with `\\`, `\"`,
//! `\n` and `\r` escapes), decimal integers, `true`/`false`, or brackets
//! around a comma-separated run of decimal integers. Log levels are stored
//! as the integers 1 through 5, never as names.
//!
//! `decode` distinguishes two failures: text that is not even a well-formed
//! run of section and key lines is `Malformed`; well-formed text whose
//! sections, keys or values do not fit the document's schema (a missing
//! field, a memory size beyond 16 bits, a log level outside 1..=5) is
//! `SchemaMismatch`.

use crate::config::{Config, ConfigView, Discord, DiscordView, Logging, LoggingView, Minecraft,
    MinecraftView};
use crate::errors::{ConfigError, DecodeError};
use crate::level::{level_from_int, level_int, level_of_int, level_to_int, Level};
use vstd::prelude::*;

verus! {

// ---------------------------------------------------------------------------
// Characters, escapes and decimal digits
// ---------------------------------------------------------------------------

/// A decimal digit.
pub open spec fn is_digit(c: char) -> bool {
    '0' <= c && c <= '9'
}

/// Numeric value of a decimal digit.
pub open spec fn digit_val(c: char) -> nat {
    ((c as int) - ('0' as int)) as nat
}

/// The character of a decimal digit value below ten.
pub open spec fn digit_char(n: nat) -> char {
    if n == 0 {
        '0'
    } else if n == 1 {
        '1'
    } else if n == 2 {
        '2'
    } else if n == 3 {
        '3'
    } else if n == 4 {
        '4'
    } else if n == 5 {
        '5'
    } else if n == 6 {
        '6'
    } else if n == 7 {
        '7'
    } else if n == 8 {
        '8'
    } else {
        '9'
    }
}

/// Characters that may follow a backslash inside a quoted string.
pub open spec fn is_escapable(c: char) -> bool {
    c == '\\' || c == '"' || c == 'n' || c == 'r'
}

/// The character an escape pair stands for.
pub open spec fn unesc_char(c: char) -> char {
    if c == 'n' {
        '\n'
    } else if c == 'r' {
        '\r'
    } else {
        c
    }
}

/// How one character appears inside a quoted string: backslashes, quotes,
/// newlines and carriage returns are escaped, everything else stands as is.
pub open spec fn esc_char(c: char) -> Seq<char> {
    if c == '\\' {
        seq!['\\', '\\']
    } else if c == '"' {
        seq!['\\', '"']
    } else if c == '\n' {
        seq!['\\', 'n']
    } else if c == '\r' {
        seq!['\\', 'r']
    } else {
        seq![c]
    }
}

/// A string as it appears between the quotes of a stored value.
pub open spec fn escape(s: Seq<char>) -> Seq<char>
    decreases s.len(),
{
    if s.len() == 0 {
        Seq::empty()
    } else {
        esc_char(s[0]) + escape(s.skip(1))
    }
}

/// Decimal form of a number, most significant digit first, no leading zeros.
pub open spec fn dec(n: nat) -> Seq<char>
    decreases n,
{
    if n < 10 {
        seq![digit_char(n)]
    } else {
        dec(n / 10) + seq![digit_char(n % 10)]
    }
}

/// Numeric value of a run of decimal digits.
pub open spec fn digits_val(d: Seq<char>) -> nat
    decreases d.len(),
{
    if d.len() == 0 {
        0
    } else {
        digits_val(d.drop_last()) * 10 + digit_val(d.last())
    }
}

// ---------------------------------------------------------------------------
// The encoded form
// ---------------------------------------------------------------------------

/// A section header line.
pub open spec fn header(name: Seq<char>) -> Seq<char> {
    seq!['['] + name + seq![']', '\n']
}

/// A key line holding a quoted string.
pub open spec fn line_str(key: Seq<char>, t: Seq<char>) -> Seq<char> {
    key + " = "@ + seq!['"'] + escape(t) + seq!['"', '\n']
}

/// A key line holding a decimal integer.
pub open spec fn line_u64(key: Seq<char>, n: u64) -> Seq<char> {
    key + " = "@ + dec(n as nat) + seq!['\n']
}

/// A key line holding a boolean.
pub open spec fn line_bool(key: Seq<char>, b: bool) -> Seq<char> {
    key + " = "@ + (if b {
        "true"@
    } else {
        "false"@
    }) + seq!['\n']
}

/// The comma-separated items between the brackets of a list value.
pub open spec fn arr_items_enc(ns: Seq<u64>) -> Seq<char>
    decreases ns.len(),
{
    if ns.len() == 0 {
        Seq::empty()
    } else if ns.len() == 1 {
        dec(ns[0] as nat)
    } else {
        dec(ns[0] as nat) + ", "@ + arr_items_enc(ns.skip(1))
    }
}

/// A key line holding a list of integers.
pub open spec fn line_arr(key: Seq<char>, ns: Seq<u64>) -> Seq<char> {
    key + " = "@ + seq!['['] + arr_items_enc(ns) + seq![']', '\n']
}

/// The stored form of the server section.
pub open spec fn enc_minecraft(m: MinecraftView) -> Seq<char> {
    header("minecraft"@) + line_str("server_path"@, m.server_path) + line_u64(
        "memory"@,
        m.memory as u64,
    ) + (match m.jvm_flags {
        Some(t) => line_str("jvm_flags"@, t),
        None => Seq::empty(),
    }) + line_bool("auto_start"@, m.auto_start)
}

/// The stored form of the bridge section.
pub open spec fn enc_discord(d: DiscordView) -> Seq<char> {
    header("discord"@) + line_bool("enable_bridge"@, d.enable_bridge) + line_str("token"@, d.token)
        + line_u64("channel_id"@, d.channel_id) + line_bool("update_status"@, d.update_status)
        + line_arr("admin_id_list"@, d.admin_id_list) + line_str("command_prefix"@, d.command_prefix)
}

/// The stored form of the logging section; levels go out as integers.
pub open spec fn enc_logging(l: LoggingView) -> Seq<char> {
    header("logging"@) + line_u64("all"@, level_int(l.all)) + line_u64(
        "self"@,
        level_int(l.self_level),
    ) + line_u64("discord"@, level_int(l.discord))
}

/// The stored form of a whole settings document.
pub open spec fn spec_encode(c: ConfigView) -> Seq<char> {
    enc_minecraft(c.minecraft) + (match c.discord {
        Some(d) => enc_discord(d),
        None => Seq::empty(),
    }) + enc_logging(c.logging)
}

// ---------------------------------------------------------------------------
// Encoder
// ---------------------------------------------------------------------------

/// Relies on `String`'s `FromIterator<char>` impl: collecting an iterator of
/// chars yields the string of exactly those chars in order.
#[verifier::external_body]
fn chars_to_string(v: &Vec<char>) -> (s: String)
    ensures
        s@ == v@,
{
    v.iter().collect()
}

/// The character of a digit value below ten.
fn digit_char_ex(n: u64) -> (c: char)
    requires
        n < 10,
    ensures
        c == digit_char(n as nat),
{
    if n == 0 {
        '0'
    } else if n == 1 {
        '1'
    } else if n == 2 {
        '2'
    } else if n == 3 {
        '3'
    } else if n == 4 {
        '4'
    } else if n == 5 {
        '5'
    } else if n == 6 {
        '6'
    } else if n == 7 {
        '7'
    } else if n == 8 {
        '8'
    } else {
        '9'
    }
}

fn push_str_chars(out: &mut Vec<char>, s: &str)
    ensures
        final(out)@ == old(out)@ + s@,
{
    let n = s.unicode_len();
    let mut k: usize = 0;
    while k < n
        invariant
            k <= n,
            n == s@.len(),
            out@ == old(out)@ + s@.take(k as int),
        decreases n - k,
    {
        let c = s.get_char(k);
        out.push(c);
        proof {
            assert(s@.take(k + 1) =~= s@.take(k as int).push(s@[k as int]));
            assert(out@ =~= old(out)@ + s@.take(k + 1));
        }
        k += 1;
    }
    proof {
        assert(s@.take(n as int) =~= s@);
    }
}

fn push_chars(out: &mut Vec<char>, v: &Vec<char>)
    ensures
        final(out)@ == old(out)@ + v@,
{
    let n = v.len();
    let mut k: usize = 0;
    while k < n
        invariant
            k <= n,
            n == v@.len(),
            out@ == old(out)@ + v@.take(k as int),
        decreases n - k,
    {
        let c = v[k];
        out.push(c);
        proof {
            assert(v@.take(k + 1) =~= v@.take(k as int).push(v@[k as int]));
            assert(out@ =~= old(out)@ + v@.take(k + 1));
        }
        k += 1;
    }
    proof {
        assert(v@.take(n as int) =~= v@);
    }
}

/// Escaping one character more extends the escaped form on the right.
proof fn lemma_escape_snoc(t: Seq<char>, c: char)
    ensures
        escape(t.push(c)) == escape(t) + esc_char(c),
    decreases t.len(),
{
    if t.len() == 0 {
        assert(t.push(c) =~= seq![c]);
        assert(seq![c].skip(1) =~= Seq::<char>::empty());
        assert(escape(Seq::<char>::empty()) == Seq::<char>::empty());
        assert(escape(seq![c]) == esc_char(c) + Seq::<char>::empty());
        assert(esc_char(c) + Seq::<char>::empty() =~= Seq::<char>::empty() + esc_char(c));
    } else {
        assert(t.push(c)[0] == t[0]);
        assert(t.push(c).skip(1) =~= t.skip(1).push(c));
        lemma_escape_snoc(t.skip(1), c);
        assert(escape(t.push(c)) == esc_char(t[0]) + (escape(t.skip(1)) + esc_char(c)));
        assert(esc_char(t[0]) + (escape(t.skip(1)) + esc_char(c)) =~= (esc_char(t[0]) + escape(
            t.skip(1),
        )) + esc_char(c));
    }
}

fn push_escaped(out: &mut Vec<char>, s: &str)
    ensures
        final(out)@ == old(out)@ + escape(s@),
{
    let n = s.unicode_len();
    let mut k: usize = 0;
    while k < n
        invariant
            k <= n,
            n == s@.len(),
            out@ == old(out)@ + escape(s@.take(k as int)),
        decreases n - k,
    {
        let c = s.get_char(k);
        if c == '\\' {
            out.push('\\');
            out.push('\\');
        } else if c == '"' {
            out.push('\\');
            out.push('"');
        } else if c == '\n' {
            out.push('\\');
            out.push('n');
        } else if c == '\r' {
            out.push('\\');
            out.push('r');
        } else {
            out.push(c);
        }
        proof {
            lemma_escape_snoc(s@.take(k as int), s@[k as int]);
            assert(s@.take(k + 1) =~= s@.take(k as int).push(s@[k as int]));
            assert(out@ =~= old(out)@ + escape(s@.take(k + 1)));
        }
        k += 1;
    }
    proof {
        assert(s@.take(n as int) =~= s@);
    }
}

fn push_u64(out: &mut Vec<char>, n: u64)
    ensures
        final(out)@ == old(out)@ + dec(n as nat),
{
    let mut tmp: Vec<char> = Vec::new();
    let mut cur = n;
    proof {
        assert(dec(n as nat) =~= dec(n as nat) + tmp@);
    }
    while cur >= 10
        invariant
            dec(n as nat) == dec(cur as nat) + tmp@,
        decreases cur,
    {
        let ghost tmp0 = tmp@;
        let c = digit_char_ex(cur % 10);
        tmp.insert(0, c);
        let ghost prev = cur;
        cur = cur / 10;
        proof {
            assert(tmp@ =~= seq![digit_char((prev % 10) as nat)] + tmp0);
            assert(dec(prev as nat) == dec(cur as nat) + seq![digit_char((prev % 10) as nat)]);
            assert(dec(cur as nat) + (seq![digit_char((prev % 10) as nat)] + tmp0) =~= (dec(
                cur as nat,
            ) + seq![digit_char((prev % 10) as nat)]) + tmp0);
        }
    }
    let ghost tmp1 = tmp@;
    let c = digit_char_ex(cur);
    tmp.insert(0, c);
    proof {
        assert(dec(cur as nat) == seq![digit_char(cur as nat)]);
        assert(tmp@ =~= seq![digit_char(cur as nat)] + tmp1);
        assert(tmp@ =~= dec(n as nat));
    }
    push_chars(out, &tmp);
}

fn push_header(out: &mut Vec<char>, name: &str)
    ensures
        final(out)@ == old(out)@ + header(name@),
{
    out.push('[');
    push_str_chars(out, name);
    out.push(']');
    out.push('\n');
    proof {
        assert(out@ =~= old(out)@ + header(name@));
    }
}

fn push_line_str(out: &mut Vec<char>, key: &str, t: &str)
    ensures
        final(out)@ == old(out)@ + line_str(key@, t@),
{
    push_str_chars(out, key);
    push_str_chars(out, " = ");
    out.push('"');
    push_escaped(out, t);
    out.push('"');
    out.push('\n');
    proof {
        assert(out@ =~= old(out)@ + line_str(key@, t@));
    }
}

fn push_line_u64(out: &mut Vec<char>, key: &str, n: u64)
    ensures
        final(out)@ == old(out)@ + line_u64(key@, n),
{
    push_str_chars(out, key);
    push_str_chars(out, " = ");
    push_u64(out, n);
    out.push('\n');
    proof {
        assert(out@ =~= old(out)@ + line_u64(key@, n));
    }
}

fn push_line_bool(out: &mut Vec<char>, key: &str, b: bool)
    ensures
        final(out)@ == old(out)@ + line_bool(key@, b),
{
    push_str_chars(out, key);
    push_str_chars(out, " = ");
    if b {
        push_str_chars(out, "true");
    } else {
        push_str_chars(out, "false");
    }
    out.push('\n');
    proof {
        assert(out@ =~= old(out)@ + line_bool(key@, b));
    }
}

/// Listing one number more extends the comma-separated run on the right.
proof fn lemma_arr_items_snoc(ns: Seq<u64>, x: u64)
    ensures
        arr_items_enc(ns.push(x)) == if ns.len() == 0 {
            dec(x as nat)
        } else {
            arr_items_enc(ns) + ", "@ + dec(x as nat)
        },
    decreases ns.len(),
{
    if ns.len() == 0 {
        assert(arr_items_enc(ns.push(x)) =~= dec(x as nat));
    } else if ns.len() == 1 {
        assert(ns.push(x)[0] == ns[0]);
        assert(ns.push(x).skip(1) =~= seq![x]);
        assert(arr_items_enc(seq![x]) == dec(seq![x][0] as nat));
        assert(seq![x][0] == x);
        assert(arr_items_enc(ns.push(x)) == dec(ns[0] as nat) + ", "@ + dec(x as nat));
        assert(dec(ns[0] as nat) + ", "@ + dec(x as nat) =~= arr_items_enc(ns) + ", "@ + dec(
            x as nat,
        ));
    } else {
        assert(ns.push(x)[0] == ns[0]);
        assert(ns.push(x).skip(1) =~= ns.skip(1).push(x));
        lemma_arr_items_snoc(ns.skip(1), x);
        assert(arr_items_enc(ns.push(x)) == dec(ns[0] as nat) + ", "@ + (arr_items_enc(ns.skip(1))
            + ", "@ + dec(x as nat)));
        assert(dec(ns[0] as nat) + ", "@ + (arr_items_enc(ns.skip(1)) + ", "@ + dec(x as nat)) =~= (
        dec(ns[0] as nat) + ", "@ + arr_items_enc(ns.skip(1))) + ", "@ + dec(x as nat));
    }
}

fn push_line_arr(out: &mut Vec<char>, key: &str, ns: &Vec<u64>)
    ensures
        final(out)@ == old(out)@ + line_arr(key@, ns@),
{
    push_str_chars(out, key);
    push_str_chars(out, " = ");
    out.push('[');
    let n = ns.len();
    let mut k: usize = 0;
    let base: Ghost<Seq<char>> = Ghost(out@);
    while k < n
        invariant
            k <= n,
            n == ns@.len(),
            out@ == base@ + arr_items_enc(ns@.take(k as int)),
        decreases n - k,
    {
        if k > 0 {
            push_str_chars(out, ", ");
            push_u64(out, ns[k]);
        } else {
            push_u64(out, ns[k]);
        }
        proof {
            lemma_arr_items_snoc(ns@.take(k as int), ns@[k as int]);
            assert(ns@.take(k + 1) =~= ns@.take(k as int).push(ns@[k as int]));
            assert(out@ =~= base@ + arr_items_enc(ns@.take(k + 1)));
        }
        k += 1;
    }
    out.push(']');
    out.push('\n');
    proof {
        assert(ns@.take(n as int) =~= ns@);
        assert(out@ =~= old(out)@ + line_arr(key@, ns@));
    }
}

/// Encode a settings document into its stored textual form.
#[verifier::rlimit(100)]
pub fn encode(c: &Config) -> (r: String)
    ensures
        r@ == spec_encode(c@),
{
    let mut out: Vec<char> = Vec::new();
    push_header(&mut out, "minecraft");
    push_line_str(&mut out, "server_path", c.minecraft.server_path.as_str());
    push_line_u64(&mut out, "memory", c.minecraft.memory as u64);
    match &c.minecraft.jvm_flags {
        Some(f) => push_line_str(&mut out, "jvm_flags", f.as_str()),
        None => (),
    }
    push_line_bool(&mut out, "auto_start", c.minecraft.auto_start);
    proof {
        assert(out@ =~= enc_minecraft(c@.minecraft));
    }
    match &c.discord {
        Some(d) => {
            push_header(&mut out, "discord");
            push_line_bool(&mut out, "enable_bridge", d.enable_bridge);
            push_line_str(&mut out, "token", d.token.as_str());
            push_line_u64(&mut out, "channel_id", d.channel_id);
            push_line_bool(&mut out, "update_status", d.update_status);
            push_line_arr(&mut out, "admin_id_list", &d.admin_id_list);
            push_line_str(&mut out, "command_prefix", d.command_prefix.as_str());
            proof {
                assert(out@ =~= enc_minecraft(c@.minecraft) + enc_discord(c@.discord->0));
            }
        },
        None => (),
    }
    let ghost mid = out@;
    push_header(&mut out, "logging");
    push_line_u64(&mut out, "all", level_to_int(c.logging.all));
    push_line_u64(&mut out, "self", level_to_int(c.logging.self_level));
    push_line_u64(&mut out, "discord", level_to_int(c.logging.discord));
    proof {
        assert(out@ =~= mid + enc_logging(c@.logging));
        assert(out@ =~= spec_encode(c@));
    }
    chars_to_string(&out)
}

// ---------------------------------------------------------------------------
// The parse functions: what `decode` accepts, defined over char sequences
// ---------------------------------------------------------------------------

/// The sequence begins with the given prefix.
pub open spec fn starts_with(s: Seq<char>, p: Seq<char>) -> bool {
    p.len() <= s.len() && s.take(p.len() as int) == p
}

/// Consume an expected literal; what follows it remains.
pub open spec fn p_lit(s: Seq<char>, lit: Seq<char>) -> Option<Seq<char>> {
    if starts_with(s, lit) {
        Some(s.skip(lit.len() as int))
    } else {
        None
    }
}

/// Consume one expected character.
pub open spec fn p_char(s: Seq<char>, c: char) -> Option<Seq<char>> {
    if s.len() > 0 && s[0] == c {
        Some(s.skip(1))
    } else {
        None
    }
}

/// Consume a section header line.
pub open spec fn p_header(s: Seq<char>, name: Seq<char>) -> Option<Seq<char>> {
    match p_char(s, '[') {
        None => None,
        Some(r1) => match p_lit(r1, name) {
            None => None,
            Some(r2) => match p_char(r2, ']') {
                None => None,
                Some(r3) => p_char(r3, '\n'),
            },
        },
    }
}

/// Consume the body of a quoted string up to and including its closing
/// quote, undoing escapes; fails on a bad escape, a raw newline, or a
/// missing closing quote.
pub open spec fn p_str_body(s: Seq<char>) -> Option<(Seq<char>, Seq<char>)>
    decreases s.len(),
{
    if s.len() == 0 {
        None
    } else if s[0] == '"' {
        Some((Seq::empty(), s.skip(1)))
    } else if s[0] == '\\' {
        if s.len() >= 2 && is_escapable(s[1]) {
            match p_str_body(s.skip(2)) {
                Some((t, r)) => Some((seq![unesc_char(s[1])] + t, r)),
                None => None,
            }
        } else {
            None
        }
    } else if s[0] == '\n' {
        None
    } else {
        match p_str_body(s.skip(1)) {
            Some((t, r)) => Some((seq![s[0]] + t, r)),
            None => None,
        }
    }
}

/// Consume the longest run of decimal digits (possibly none).
pub open spec fn p_digits(s: Seq<char>) -> (Seq<char>, Seq<char>)
    decreases s.len(),
{
    if s.len() > 0 && is_digit(s[0]) {
        let (d, r) = p_digits(s.skip(1));
        (seq![s[0]] + d, r)
    } else {
        (Seq::empty(), s)
    }
}

/// Consume a decimal number that fits an unsigned 64-bit integer.
pub open spec fn p_u64(s: Seq<char>) -> Option<(u64, Seq<char>)> {
    let (d, r) = p_digits(s);
    if d.len() == 0 {
        None
    } else if digits_val(d) > u64::MAX {
        None
    } else {
        Some(((digits_val(d) as u64), r))
    }
}

/// Consume a whole `key = "..."` line.
pub open spec fn p_kv_str(s: Seq<char>, key: Seq<char>) -> Option<(Seq<char>, Seq<char>)> {
    match p_lit(s, key) {
        None => None,
        Some(r1) => match p_lit(r1, " = "@) {
            None => None,
            Some(r2) => match p_char(r2, '"') {
                None => None,
                Some(r3) => match p_str_body(r3) {
                    None => None,
                    Some((t, r4)) => match p_char(r4, '\n') {
                        None => None,
                        Some(r5) => Some((t, r5)),
                    },
                },
            },
        },
    }
}

/// Consume a whole `key = <number>` line.
pub open spec fn p_kv_u64(s: Seq<char>, key: Seq<char>) -> Option<(u64, Seq<char>)> {
    match p_lit(s, key) {
        None => None,
        Some(r1) => match p_lit(r1, " = "@) {
            None => None,
            Some(r2) => match p_u64(r2) {
                None => None,
                Some((n, r3)) => match p_char(r3, '\n') {
                    None => None,
                    Some(r4) => Some((n, r4)),
                },
            },
        },
    }
}

/// Consume a whole `key = true|false` line.
pub open spec fn p_kv_bool(s: Seq<char>, key: Seq<char>) -> Option<(bool, Seq<char>)> {
    match p_lit(s, key) {
        None => None,
        Some(r1) => match p_lit(r1, " = "@) {
            None => None,
            Some(r2) => match p_lit(r2, "true"@) {
                Some(r3) => match p_char(r3, '\n') {
                    None => None,
                    Some(r4) => Some((true, r4)),
                },
                None => match p_lit(r2, "false"@) {
                    None => None,
                    Some(r3) => match p_char(r3, '\n') {
                        None => None,
                        Some(r4) => Some((false, r4)),
                    },
                },
            },
        },
    }
}

/// How long a run of digits is never exceeds the text it came from.
proof fn lemma_p_digits_len(s: Seq<char>)
    ensures
        p_digits(s).0.len() + p_digits(s).1.len() == s.len(),
    decreases s.len(),
{
    if s.len() > 0 && is_digit(s[0]) {
        lemma_p_digits_len(s.skip(1));
    }
}

/// Consume the comma-separated numbers of a nonempty list value.
pub open spec fn p_arr_items(s: Seq<char>) -> Option<(Seq<u64>, Seq<char>)>
    decreases s.len(),
    via p_arr_items_dec
{
    if p_u64(s) is None {
        None
    } else {
        let t = p_u64(s)->0;
        if starts_with(t.1, ", "@) {
            match p_arr_items(t.1.skip(2)) {
                Some((ns, r2)) => Some((seq![t.0] + ns, r2)),
                None => None,
            }
        } else {
            Some((seq![t.0], t.1))
        }
    }
}

#[via_fn]
proof fn p_arr_items_dec(s: Seq<char>) {
    lemma_p_digits_len(s);
    if p_u64(s) is Some {
        let t = p_u64(s)->0;
        assert(p_digits(s).0.len() > 0);
        assert(t.1 == p_digits(s).1);
        assert(t.1.len() < s.len());
        if starts_with(t.1, ", "@) {
            reveal_strlit(", ");
            assert(t.1.len() >= 2);
            assert(t.1.skip(2).len() < s.len());
        }
    }
}

/// Consume a whole `key = [...]` line.
pub open spec fn p_kv_arr(s: Seq<char>, key: Seq<char>) -> Option<(Seq<u64>, Seq<char>)> {
    match p_lit(s, key) {
        None => None,
        Some(r1) => match p_lit(r1, " = "@) {
            None => None,
            Some(r2) => match p_char(r2, '[') {
                None => None,
                Some(r3) => match p_char(r3, ']') {
                    Some(r4) => match p_char(r4, '\n') {
                        None => None,
                        Some(r5) => Some((Seq::empty(), r5)),
                    },
                    None => match p_arr_items(r3) {
                        None => None,
                        Some((ns, r4)) => match p_char(r4, ']') {
                            None => None,
                            Some(r5) => match p_char(r5, '\n') {
                                None => None,
                                Some(r6) => Some((ns, r6)),
                            },
                        },
                    },
                },
            },
        },
    }
}

/// Consume a `key = <level integer>` line; integers outside 1..=5 fail.
pub open spec fn p_kv_level(s: Seq<char>, key: Seq<char>) -> Option<(Level, Seq<char>)> {
    match p_kv_u64(s, key) {
        None => None,
        Some((n, r)) => match level_of_int(n) {
            None => None,
            Some(l) => Some((l, r)),
        },
    }
}

/// Consume the server section.
pub open spec fn p_minecraft(s: Seq<char>) -> Option<(MinecraftView, Seq<char>)> {
    match p_header(s, "minecraft"@) {
        None => None,
        Some(r0) => match p_kv_str(r0, "server_path"@) {
            None => None,
            Some((sp, r1)) => match p_kv_u64(r1, "memory"@) {
                None => None,
                Some((mem, r2)) => if mem > u16::MAX as u64 {
                    None
                } else {
                    let (jvm, r3) = match p_kv_str(r2, "jvm_flags"@) {
                        Some((t, r)) => (Some(t), r),
                        None => (None, r2),
                    };
                    match p_kv_bool(r3, "auto_start"@) {
                        None => None,
                        Some((auto, r4)) => Some(
                            (
                                MinecraftView {
                                    server_path: sp,
                                    memory: mem as u16,
                                    jvm_flags: jvm,
                                    auto_start: auto,
                                },
                                r4,
                            ),
                        ),
                    }
                },
            },
        },
    }
}

/// Consume the bridge section, header included.
pub open spec fn p_discord(s: Seq<char>) -> Option<(DiscordView, Seq<char>)> {
    match p_header(s, "discord"@) {
        None => None,
        Some(r0) => match p_kv_bool(r0, "enable_bridge"@) {
            None => None,
            Some((en, r1)) => match p_kv_str(r1, "token"@) {
                None => None,
                Some((tok, r2)) => match p_kv_u64(r2, "channel_id"@) {
                    None => None,
                    Some((ch, r3)) => match p_kv_bool(r3, "update_status"@) {
                        None => None,
                        Some((up, r4)) => match p_kv_arr(r4, "admin_id_list"@) {
                            None => None,
                            Some((ids, r5)) => match p_kv_str(r5, "command_prefix"@) {
                                None => None,
                                Some((pre, r6)) => Some(
                                    (
                                        DiscordView {
                                            enable_bridge: en,
                                            token: tok,
                                            channel_id: ch,
                                            update_status: up,
                                            admin_id_list: ids,
                                            command_prefix: pre,
                                        },
                                        r6,
                                    ),
                                ),
                            },
                        },
                    },
                },
            },
        },
    }
}

/// Consume the logging section.
pub open spec fn p_logging(s: Seq<char>) -> Option<(LoggingView, Seq<char>)> {
    match p_header(s, "logging"@) {
        None => None,
        Some(r0) => match p_kv_level(r0, "all"@) {
            None => None,
            Some((a, r1)) => match p_kv_level(r1, "self"@) {
                None => None,
                Some((se, r2)) => match p_kv_level(r2, "discord"@) {
                    None => None,
                    Some((di, r3)) => Some(
                        (LoggingView { all: a, self_level: se, discord: di }, r3),
                    ),
                },
            },
        },
    }
}

/// The document a whole text stands for, if it parses: the server section,
/// an optional bridge section, the logging section, and nothing after them.
pub open spec fn p_doc(s: Seq<char>) -> Option<ConfigView> {
    match p_minecraft(s) {
        None => None,
        Some((m, r1)) => if p_header(r1, "discord"@) is Some {
            match p_discord(r1) {
                None => None,
                Some((d, r2)) => match p_logging(r2) {
                    None => None,
                    Some((l, r3)) => if r3.len() == 0 {
                        Some(ConfigView { minecraft: m, discord: Some(d), logging: l })
                    } else {
                        None
                    },
                },
            }
        } else {
            match p_logging(r1) {
                None => None,
                Some((l, r3)) => if r3.len() == 0 {
                    Some(ConfigView { minecraft: m, discord: None, logging: l })
                } else {
                    None
                },
            }
        },
    }
}

// ---------------------------------------------------------------------------
// Decoder
// ---------------------------------------------------------------------------

/// Skipping in two steps is skipping once.
proof fn lemma_skip_skip(s: Seq<char>, i: int, k: int)
    requires
        0 <= i,
        0 <= k,
        i + k <= s.len(),
    ensures
        s.skip(i).skip(k) == s.skip(i + k),
{
    assert(s.skip(i).skip(k) =~= s.skip(i + k));
}

fn to_chars(s: &str) -> (v: Vec<char>)
    ensures
        v@ == s@,
{
    let n = s.unicode_len();
    let mut v: Vec<char> = Vec::new();
    let mut k: usize = 0;
    while k < n
        invariant
            k <= n,
            n == s@.len(),
            v@ == s@.take(k as int),
        decreases n - k,
    {
        let c = s.get_char(k);
        v.push(c);
        proof {
            assert(s@.take(k + 1) =~= s@.take(k as int).push(s@[k as int]));
        }
        k += 1;
    }
    proof {
        assert(s@.take(n as int) =~= s@);
    }
    v
}

fn e_char(v: &Vec<char>, i: usize, c: char) -> (r: Option<usize>)
    requires
        i <= v@.len(),
    ensures
        match r {
            Some(j) => i < j <= v@.len() && p_char(v@.skip(i as int), c) == Some(
                v@.skip(j as int),
            ),
            None => p_char(v@.skip(i as int), c) is None,
        },
{
    if i < v.len() {
        proof {
            assert(v@.skip(i as int)[0] == v@[i as int]);
        }
        let ch = v[i];
        if ch == c {
            proof {
                lemma_skip_skip(v@, i as int, 1);
            }
            Some(i + 1)
        } else {
            None
        }
    } else {
        None
    }
}

fn match_lit(v: &Vec<char>, i: usize, lit: &str) -> (r: Option<usize>)
    requires
        i <= v@.len(),
    ensures
        match r {
            Some(j) => i <= j <= v@.len() && j - i == lit@.len() && p_lit(
                v@.skip(i as int),
                lit@,
            ) == Some(v@.skip(j as int)),
            None => p_lit(v@.skip(i as int), lit@) is None,
        },
{
    let n = lit.unicode_len();
    if n > v.len() - i {
        proof {
            assert(!starts_with(v@.skip(i as int), lit@));
        }
        return None;
    }
    let mut k: usize = 0;
    while k < n
        invariant
            k <= n,
            i + n <= v@.len(),
            v@.len() <= usize::MAX,
            n == lit@.len(),
            forall|m: int| 0 <= m < k ==> v@[i + m] == lit@[m],
        decreases n - k,
    {
        let a = v[i + k];
        let b = lit.get_char(k);
        if a != b {
            proof {
                let s = v@.skip(i as int);
                assert(s[k as int] == v@[i + k]);
                if starts_with(s, lit@) {
                    assert(s.take(n as int)[k as int] == lit@[k as int]);
                    assert(s.take(n as int)[k as int] == s[k as int]);
                }
            }
            return None;
        }
        k += 1;
    }
    proof {
        let s = v@.skip(i as int);
        assert forall|m: int| 0 <= m < n implies s.take(n as int)[m] == lit@[m] by {
            assert(s[m] == v@[i + m]);
        }
        assert(s.take(n as int) =~= lit@);
        lemma_skip_skip(v@, i as int, n as int);
    }
    Some(i + n)
}

fn e_header(v: &Vec<char>, i: usize, name: &str) -> (r: Option<usize>)
    requires
        i <= v@.len(),
    ensures
        match r {
            Some(j) => i <= j <= v@.len() && p_header(v@.skip(i as int), name@) == Some(
                v@.skip(j as int),
            ),
            None => p_header(v@.skip(i as int), name@) is None,
        },
{
    match e_char(v, i, '[') {
        None => None,
        Some(j1) => match match_lit(v, j1, name) {
            None => None,
            Some(j2) => match e_char(v, j2, ']') {
                None => None,
                Some(j3) => e_char(v, j3, '\n'),
            },
        },
    }
}

fn e_str_body(v: &Vec<char>, i: usize) -> (r: Option<(Vec<char>, usize)>)
    requires
        i <= v@.len(),
    ensures
        match r {
            Some((t, j)) => i < j <= v@.len() && p_str_body(v@.skip(i as int)) == Some(
                (t@, v@.skip(j as int)),
            ),
            None => p_str_body(v@.skip(i as int)) is None,
        },
    decreases v@.len() - i,
{
    if i == v.len() {
        return None;
    }
    let c = v[i];
    proof {
        assert(v@.skip(i as int)[0] == v@[i as int]);
    }
    if c == '"' {
        proof {
            lemma_skip_skip(v@, i as int, 1);
        }
        let t: Vec<char> = Vec::new();
        Some((t, i + 1))
    } else if c == '\\' {
        if i + 1 < v.len() {
            let e = v[i + 1];
            proof {
                assert(v@.skip(i as int)[1] == v@[i + 1]);
            }
            if e == '\\' || e == '"' || e == 'n' || e == 'r' {
                proof {
                    lemma_skip_skip(v@, i as int, 2);
                }
                match e_str_body(v, i + 2) {
                    None => None,
                    Some((t0, j)) => {
                        let ghost t0v = t0@;
                        let u = if e == 'n' {
                            '\n'
                        } else if e == 'r' {
                            '\r'
                        } else {
                            e
                        };
                        let mut t = t0;
                        t.insert(0, u);
                        proof {
                            assert(t@ =~= seq![unesc_char(v@[i + 1])] + t0v);
                        }
                        Some((t, j))
                    },
                }
            } else {
                None
            }
        } else {
            None
        }
    } else if c == '\n' {
        None
    } else {
        proof {
            lemma_skip_skip(v@, i as int, 1);
        }
        match e_str_body(v, i + 1) {
            None => None,
            Some((t0, j)) => {
                let ghost t0v = t0@;
                let mut t = t0;
                t.insert(0, c);
                proof {
                    assert(t@ =~= seq![v@[i as int]] + t0v);
                }
                Some((t, j))
            },
        }
    }
}

fn e_digits(v: &Vec<char>, i: usize) -> (r: (Vec<char>, usize))
    requires
        i <= v@.len(),
    ensures
        i <= r.1 <= v@.len(),
        r.1 - i == r.0@.len(),
        p_digits(v@.skip(i as int)) == (r.0@, v@.skip(r.1 as int)),
    decreases v@.len() - i,
{
    if i < v.len() {
        let c = v[i];
        proof {
            assert(v@.skip(i as int)[0] == v@[i as int]);
        }
        if '0' <= c && c <= '9' {
            proof {
                lemma_skip_skip(v@, i as int, 1);
            }
            let dj = e_digits(v, i + 1);
            let mut d = dj.0;
            let ghost d0 = d@;
            d.insert(0, c);
            proof {
                assert(d@ =~= seq![v@[i as int]] + d0);
            }
            return (d, dj.1);
        }
    }
    let d: Vec<char> = Vec::new();
    (d, i)
}

/// Reading one more digit multiplies the value so far by ten.
proof fn lemma_digits_val_take_step(d: Seq<char>, k: int)
    requires
        0 <= k < d.len(),
    ensures
        digits_val(d.take(k + 1)) == digits_val(d.take(k)) * 10 + digit_val(d[k]),
{
    assert(d.take(k + 1).drop_last() =~= d.take(k));
    assert(d.take(k + 1).last() == d[k]);
}

/// The value of a prefix of a digit run never exceeds the whole run's value.
proof fn lemma_digits_val_prefix_le(d: Seq<char>, m: int)
    requires
        0 <= m <= d.len(),
    ensures
        digits_val(d.take(m)) <= digits_val(d),
    decreases d.len(),
{
    if m == d.len() {
        assert(d.take(m) =~= d);
    } else {
        assert(d.take(m) =~= d.drop_last().take(m));
        lemma_digits_val_prefix_le(d.drop_last(), m);
    }
}

/// Everything a digit run yields is a digit.
proof fn lemma_p_digits_all_digits(s: Seq<char>)
    ensures
        forall|m: int| 0 <= m < p_digits(s).0.len() ==> is_digit(#[trigger] p_digits(s).0[m]),
    decreases s.len(),
{
    if s.len() > 0 && is_digit(s[0]) {
        lemma_p_digits_all_digits(s.skip(1));
        assert forall|m: int| 0 <= m < p_digits(s).0.len() implies is_digit(
            #[trigger] p_digits(s).0[m],
        ) by {
            if m > 0 {
                assert(p_digits(s).0[m] == p_digits(s.skip(1)).0[m - 1]);
            }
        }
    }
}

/// Numeric value of a digit.
fn digit_val_ex(c: char) -> (r: u64)
    requires
        is_digit(c),
    ensures
        r as nat == digit_val(c),
        r <= 9,
{
    (c as u32 - '0' as u32) as u64
}

fn e_u64(v: &Vec<char>, i: usize) -> (r: Option<(u64, usize)>)
    requires
        i <= v@.len(),
    ensures
        match r {
            Some((n, j)) => i < j <= v@.len() && p_u64(v@.skip(i as int)) == Some(
                (n, v@.skip(j as int)),
            ),
            None => p_u64(v@.skip(i as int)) is None,
        },
{
    let dj = e_digits(v, i);
    let d = dj.0;
    let j = dj.1;
    if d.len() == 0 {
        return None;
    }
    proof {
        lemma_p_digits_all_digits(v@.skip(i as int));
    }
    let ghost ds = d@;
    let mut val: u64 = 0;
    let mut k: usize = 0;
    while k < d.len()
        invariant
            k <= d@.len(),
            d@ == ds,
            ds == p_digits(v@.skip(i as int)).0,
            forall|m: int| 0 <= m < ds.len() ==> is_digit(#[trigger] ds[m]),
            val as nat == digits_val(ds.take(k as int)),
        decreases d@.len() - k,
    {
        let c = d[k];
        let dv = digit_val_ex(c);
        proof {
            lemma_digits_val_take_step(ds, k as int);
        }
        if val > u64::MAX / 10 || (val == u64::MAX / 10 && dv > u64::MAX % 10) {
            proof {
                assert(digits_val(ds.take(k + 1)) > u64::MAX);
                lemma_digits_val_prefix_le(ds, k + 1);
            }
            return None;
        }
        val = val * 10 + dv;
        k += 1;
    }
    proof {
        assert(ds.take(d@.len() as int) =~= ds);
    }
    Some((val, j))
}

fn e_kv_str(v: &Vec<char>, i: usize, key: &str) -> (r: Option<(String, usize)>)
    requires
        i <= v@.len(),
    ensures
        match r {
            Some((t, j)) => i <= j <= v@.len() && p_kv_str(v@.skip(i as int), key@) == Some(
                (t@, v@.skip(j as int)),
            ),
            None => p_kv_str(v@.skip(i as int), key@) is None,
        },
{
    match match_lit(v, i, key) {
        None => None,
        Some(j1) => match match_lit(v, j1, " = ") {
            None => None,
            Some(j2) => match e_char(v, j2, '"') {
                None => None,
                Some(j3) => match e_str_body(v, j3) {
                    None => None,
                    Some((t, j4)) => match e_char(v, j4, '\n') {
                        None => None,
                        Some(j5) => Some((chars_to_string(&t), j5)),
                    },
                },
            },
        },
    }
}

fn e_kv_u64(v: &Vec<char>, i: usize, key: &str) -> (r: Option<(u64, usize)>)
    requires
        i <= v@.len(),
    ensures
        match r {
            Some((n, j)) => i <= j <= v@.len() && p_kv_u64(v@.skip(i as int), key@) == Some(
                (n, v@.skip(j as int)),
            ),
            None => p_kv_u64(v@.skip(i as int), key@) is None,
        },
{
    match match_lit(v, i, key) {
        None => None,
        Some(j1) => match match_lit(v, j1, " = ") {
            None => None,
            Some(j2) => match e_u64(v, j2) {
                None => None,
                Some((n, j3)) => match e_char(v, j3, '\n') {
                    None => None,
                    Some(j4) => Some((n, j4)),
                },
            },
        },
    }
}

fn e_kv_bool(v: &Vec<char>, i: usize, key: &str) -> (r: Option<(bool, usize)>)
    requires
        i <= v@.len(),
    ensures
        match r {
            Some((b, j)) => i <= j <= v@.len() && p_kv_bool(v@.skip(i as int), key@) == Some(
                (b, v@.skip(j as int)),
            ),
            None => p_kv_bool(v@.skip(i as int), key@) is None,
        },
{
    match match_lit(v, i, key) {
        None => None,
        Some(j1) => match match_lit(v, j1, " = ") {
            None => None,
            Some(j2) => match match_lit(v, j2, "true") {
                Some(j3) => match e_char(v, j3, '\n') {
                    None => None,
                    Some(j4) => Some((true, j4)),
                },
                None => match match_lit(v, j2, "false") {
                    None => None,
                    Some(j3) => match e_char(v, j3, '\n') {
                        None => None,
                        Some(j4) => Some((false, j4)),
                    },
                },
            },
        },
    }
}

fn e_arr_items(v: &Vec<char>, i: usize) -> (r: Option<(Vec<u64>, usize)>)
    requires
        i <= v@.len(),
    ensures
        match r {
            Some((ns, j)) => i <= j <= v@.len() && p_arr_items(v@.skip(i as int)) == Some(
                (ns@, v@.skip(j as int)),
            ),
            None => p_arr_items(v@.skip(i as int)) is None,
        },
    decreases v@.len() - i,
{
    match e_u64(v, i) {
        None => None,
        Some((n, j)) => {
            match match_lit(v, j, ", ") {
                Some(j2) => {
                    proof {
                        reveal_strlit(", ");
                        lemma_skip_skip(v@, j as int, 2);
                    }
                    match e_arr_items(v, j2) {
                        None => None,
                        Some((ns0, j3)) => {
                            let ghost ns0v = ns0@;
                            let mut ns = ns0;
                            ns.insert(0, n);
                            proof {
                                assert(ns@ =~= seq![n] + ns0v);
                            }
                            Some((ns, j3))
                        },
                    }
                },
                None => {
                    let mut ns: Vec<u64> = Vec::new();
                    ns.push(n);
                    proof {
                        assert(ns@ =~= seq![n]);
                    }
                    Some((ns, j))
                },
            }
        },
    }
}

fn e_kv_arr(v: &Vec<char>, i: usize, key: &str) -> (r: Option<(Vec<u64>, usize)>)
    requires
        i <= v@.len(),
    ensures
        match r {
            Some((ns, j)) => i <= j <= v@.len() && p_kv_arr(v@.skip(i as int), key@) == Some(
                (ns@, v@.skip(j as int)),
            ),
            None => p_kv_arr(v@.skip(i as int), key@) is None,
        },
{
    match match_lit(v, i, key) {
        None => None,
        Some(j1) => match match_lit(v, j1, " = ") {
            None => None,
            Some(j2) => match e_char(v, j2, '[') {
                None => None,
                Some(j3) => match e_char(v, j3, ']') {
                    Some(j4) => match e_char(v, j4, '\n') {
                        None => None,
                        Some(j5) => {
                            let ns: Vec<u64> = Vec::new();
                            Some((ns, j5))
                        },
                    },
                    None => match e_arr_items(v, j3) {
                        None => None,
                        Some((ns, j4)) => match e_char(v, j4, ']') {
                            None => None,
                            Some(j5) => match e_char(v, j5, '\n') {
                                None => None,
                                Some(j6) => Some((ns, j6)),
                            },
                        },
                    },
                },
            },
        },
    }
}

fn e_kv_level(v: &Vec<char>, i: usize, key: &str) -> (r: Option<(Level, usize)>)
    requires
        i <= v@.len(),
    ensures
        match r {
            Some((l, j)) => i <= j <= v@.len() && p_kv_level(v@.skip(i as int), key@) == Some(
                (l, v@.skip(j as int)),
            ),
            None => p_kv_level(v@.skip(i as int), key@) is None,
        },
{
    match e_kv_u64(v, i, key) {
        None => None,
        Some((n, j)) => match level_from_int(n) {
            None => None,
            Some(l) => Some((l, j)),
        },
    }
}

fn e_minecraft(v: &Vec<char>, i: usize) -> (r: Option<(Minecraft, usize)>)
    requires
        i <= v@.len(),
    ensures
        match r {
            Some((m, j)) => i <= j <= v@.len() && p_minecraft(v@.skip(i as int)) == Some(
                (m@, v@.skip(j as int)),
            ),
            None => p_minecraft(v@.skip(i as int)) is None,
        },
{
    match e_header(v, i, "minecraft") {
        None => None,
        Some(j0) => match e_kv_str(v, j0, "server_path") {
            None => None,
            Some((sp, j1)) => match e_kv_u64(v, j1, "memory") {
                None => None,
                Some((mem, j2)) => {
                    if mem > 65535 {
                        None
                    } else {
                        let (jvm, j3) = match e_kv_str(v, j2, "jvm_flags") {
                            Some((t, j)) => (Some(t), j),
                            None => (None, j2),
                        };
                        match e_kv_bool(v, j3, "auto_start") {
                            None => None,
                            Some((auto, j4)) => Some(
                                (
                                    Minecraft {
                                        server_path: sp,
                                        memory: mem as u16,
                                        jvm_flags: jvm,
                                        auto_start: auto,
                                    },
                                    j4,
                                ),
                            ),
                        }
                    }
                },
            },
        },
    }
}

fn e_discord(v: &Vec<char>, i: usize) -> (r: Option<(Discord, usize)>)
    requires
        i <= v@.len(),
    ensures
        match r {
            Some((d, j)) => i <= j <= v@.len() && p_discord(v@.skip(i as int)) == Some(
                (d@, v@.skip(j as int)),
            ),
            None => p_discord(v@.skip(i as int)) is None,
        },
{
    match e_header(v, i, "discord") {
        None => None,
        Some(j0) => match e_kv_bool(v, j0, "enable_bridge") {
            None => None,
            Some((en, j1)) => match e_kv_str(v, j1, "token") {
                None => None,
                Some((tok, j2)) => match e_kv_u64(v, j2, "channel_id") {
                    None => None,
                    Some((ch, j3)) => match e_kv_bool(v, j3, "update_status") {
                        None => None,
                        Some((up, j4)) => match e_kv_arr(v, j4, "admin_id_list") {
                            None => None,
                            Some((ids, j5)) => match e_kv_str(v, j5, "command_prefix") {
                                None => None,
                                Some((pre, j6)) => Some(
                                    (
                                        Discord {
                                            enable_bridge: en,
                                            token: tok,
                                            channel_id: ch,
                                            update_status: up,
                                            admin_id_list: ids,
                                            command_prefix: pre,
                                        },
                                        j6,
                                    ),
                                ),
                            },
                        },
                    },
                },
            },
        },
    }
}

fn e_logging(v: &Vec<char>, i: usize) -> (r: Option<(Logging, usize)>)
    requires
        i <= v@.len(),
    ensures
        match r {
            Some((l, j)) => i <= j <= v@.len() && p_logging(v@.skip(i as int)) == Some(
                (l@, v@.skip(j as int)),
            ),
            None => p_logging(v@.skip(i as int)) is None,
        },
{
    match e_header(v, i, "logging") {
        None => None,
        Some(j0) => match e_kv_level(v, j0, "all") {
            None => None,
            Some((a, j1)) => match e_kv_level(v, j1, "self") {
                None => None,
                Some((se, j2)) => match e_kv_level(v, j2, "discord") {
                    None => None,
                    Some((di, j3)) => Some(
                        (Logging { all: a, self_level: se, discord: di }, j3),
                    ),
                },
            },
        },
    }
}

fn e_doc(v: &Vec<char>) -> (r: Option<Config>)
    ensures
        match r {
            Some(c) => p_doc(v@) == Some(c@),
            None => p_doc(v@) is None,
        },
{
    proof {
        assert(v@.skip(0) =~= v@);
    }
    match e_minecraft(v, 0) {
        None => None,
        Some((m, i1)) => {
            let has_discord = match e_header(v, i1, "discord") {
                Some(_) => true,
                None => false,
            };
            if has_discord {
                match e_discord(v, i1) {
                    None => None,
                    Some((d, i2)) => match e_logging(v, i2) {
                        None => None,
                        Some((l, i3)) => if i3 == v.len() {
                            Some(Config { minecraft: m, discord: Some(d), logging: l })
                        } else {
                            None
                        },
                    },
                }
            } else {
                match e_logging(v, i1) {
                    None => None,
                    Some((l, i3)) => if i3 == v.len() {
                        Some(Config { minecraft: m, discord: None, logging: l })
                    } else {
                        None
                    },
                }
            }
        },
    }
}

// ---------------------------------------------------------------------------
// Lexical well-formedness: the Malformed / SchemaMismatch split
// ---------------------------------------------------------------------------

/// Index of the first newline, or the length if there is none.
pub open spec fn first_nl(s: Seq<char>) -> nat
    decreases s.len(),
{
    if s.len() == 0 {
        0
    } else if s[0] == '\n' {
        0
    } else {
        1 + first_nl(s.skip(1))
    }
}

/// Index of the first space, or the length if there is none.
pub open spec fn first_sp(s: Seq<char>) -> nat
    decreases s.len(),
{
    if s.len() == 0 {
        0
    } else if s[0] == ' ' {
        0
    } else {
        1 + first_sp(s.skip(1))
    }
}

/// Characters allowed in a key or section name.
pub open spec fn is_key_char(c: char) -> bool {
    ('a' <= c && c <= 'z') || c == '_'
}

/// A `[name]` line.
pub open spec fn header_line_ok(l: Seq<char>) -> bool {
    l.len() >= 3 && l[0] == '[' && l[l.len() - 1] == ']' && forall|m: int|
        1 <= m < l.len() - 1 ==> is_key_char(#[trigger] l[m])
}

/// A `key = value` line: a nonempty key of key characters, one space, an
/// equals sign, one space, and a nonempty value text. What shape the value
/// text has is a schema question, not a lexical one.
pub open spec fn kv_line_ok(l: Seq<char>) -> bool {
    let k = first_sp(l) as int;
    1 <= k && k + 4 <= l.len() && l[k + 1] == '=' && l[k + 2] == ' ' && forall|m: int|
        0 <= m < k ==> is_key_char(#[trigger] l[m])
}

/// A line is blank, a section header, or a key line.
pub open spec fn line_ok(l: Seq<char>) -> bool {
    l.len() == 0 || header_line_ok(l) || kv_line_ok(l)
}

/// The whole text splits on newlines into acceptable lines.
pub open spec fn lex_ok(s: Seq<char>) -> bool
    decreases s.len(),
{
    if s.len() == 0 {
        true
    } else {
        let e = first_nl(s) as int;
        line_ok(s.take(e)) && (if e < s.len() {
            lex_ok(s.skip(e + 1))
        } else {
            true
        })
    }
}

fn e_first_nl(v: &Vec<char>, i: usize) -> (j: usize)
    requires
        i <= v@.len(),
    ensures
        i <= j <= v@.len(),
        j - i == first_nl(v@.skip(i as int)),
    decreases v@.len() - i,
{
    if i == v.len() {
        return i;
    }
    proof {
        assert(v@.skip(i as int)[0] == v@[i as int]);
    }
    if v[i] == '\n' {
        return i;
    }
    proof {
        lemma_skip_skip(v@, i as int, 1);
    }
    e_first_nl(v, i + 1)
}

fn e_first_sp(v: &Vec<char>, lo: usize, hi: usize) -> (k: usize)
    requires
        lo <= hi <= v@.len(),
    ensures
        lo <= k <= hi,
        k - lo == first_sp(v@.subrange(lo as int, hi as int)),
    decreases hi - lo,
{
    if lo == hi {
        return lo;
    }
    proof {
        assert(v@.subrange(lo as int, hi as int)[0] == v@[lo as int]);
    }
    if v[lo] == ' ' {
        return lo;
    }
    proof {
        assert(v@.subrange(lo as int, hi as int).skip(1) =~= v@.subrange(lo + 1, hi as int));
    }
    e_first_sp(v, lo + 1, hi)
}

fn e_is_key_char(c: char) -> (r: bool)
    ensures
        r == is_key_char(c),
{
    ('a' <= c && c <= 'z') || c == '_'
}

fn e_header_line_ok(v: &Vec<char>, lo: usize, hi: usize) -> (r: bool)
    requires
        lo <= hi <= v@.len(),
    ensures
        r == header_line_ok(v@.subrange(lo as int, hi as int)),
{
    let ghost l = v@.subrange(lo as int, hi as int);
    if hi - lo < 3 {
        return false;
    }
    if v[lo] != '[' {
        proof {
            assert(l[0] == v@[lo as int]);
        }
        return false;
    }
    if v[hi - 1] != ']' {
        proof {
            assert(l[l.len() - 1] == v@[hi - 1]);
        }
        return false;
    }
    let mut m: usize = 1;
    let len = hi - lo;
    while m < len - 1
        invariant
            1 <= m <= len - 1,
            3 <= len,
            lo + len == hi,
            hi <= v@.len(),
            l == v@.subrange(lo as int, hi as int),
            forall|q: int| 1 <= q < m ==> is_key_char(#[trigger] l[q]),
        decreases len - m,
    {
        let ok = e_is_key_char(v[lo + m]);
        proof {
            assert(l[m as int] == v@[lo + m]);
        }
        if !ok {
            return false;
        }
        m += 1;
    }
    proof {
        assert(l[0] == v@[lo as int]);
        assert(l[l.len() - 1] == v@[hi - 1]);
    }
    true
}

fn e_kv_line_ok(v: &Vec<char>, lo: usize, hi: usize) -> (r: bool)
    requires
        lo <= hi <= v@.len(),
    ensures
        r == kv_line_ok(v@.subrange(lo as int, hi as int)),
{
    let ghost l = v@.subrange(lo as int, hi as int);
    let k = e_first_sp(v, lo, hi);
    if k == lo {
        return false;
    }
    if hi - k < 4 {
        return false;
    }
    proof {
        assert(l[k - lo + 1] == v@[k + 1]);
        assert(l[k - lo + 2] == v@[k + 2]);
    }
    if v[k + 1] != '=' {
        return false;
    }
    if v[k + 2] != ' ' {
        return false;
    }
    let mut m: usize = lo;
    while m < k
        invariant
            lo <= m <= k,
            k <= hi <= v@.len(),
            l == v@.subrange(lo as int, hi as int),
            k - lo == first_sp(l),
            forall|q: int| 0 <= q < m - lo ==> is_key_char(#[trigger] l[q]),
        decreases k - m,
    {
        let ok = e_is_key_char(v[m]);
        proof {
            assert(l[m - lo] == v@[m as int]);
        }
        if !ok {
            return false;
        }
        m += 1;
    }
    true
}

fn e_line_ok(v: &Vec<char>, lo: usize, hi: usize) -> (r: bool)
    requires
        lo <= hi <= v@.len(),
    ensures
        r == line_ok(v@.subrange(lo as int, hi as int)),
{
    if lo == hi {
        proof {
            assert(v@.subrange(lo as int, hi as int).len() == 0);
        }
        return true;
    }
    if e_header_line_ok(v, lo, hi) {
        return true;
    }
    e_kv_line_ok(v, lo, hi)
}

fn e_lex_ok(v: &Vec<char>, i: usize) -> (r: bool)
    requires
        i <= v@.len(),
    ensures
        r == lex_ok(v@.skip(i as int)),
    decreases v@.len() - i,
{
    if i == v.len() {
        return true;
    }
    let e = e_first_nl(v, i);
    proof {
        assert(v@.skip(i as int).take(e - i) =~= v@.subrange(i as int, e as int));
    }
    let ok = e_line_ok(v, i, e);
    if !ok {
        return false;
    }
    if e < v.len() {
        proof {
            lemma_skip_skip(v@, i as int, e + 1 - i);
        }
        e_lex_ok(v, e + 1)
    } else {
        true
    }
}

/// Decode stored text into a settings document.
///
/// Exactly the texts of the stored form are accepted, and the document they
/// stand for is returned. Text that does not even split into blank, header
/// and key lines is `Malformed`; text of well-formed lines whose sections,
/// keys or values do not fit the schema is `SchemaMismatch`.
pub fn decode(s: &str) -> (r: Result<Config, DecodeError>)
    ensures
        match r {
            Ok(c) => p_doc(s@) == Some(c@),
            Err(e) => p_doc(s@) is None && e == (if lex_ok(s@) {
                DecodeError::SchemaMismatch
            } else {
                DecodeError::Malformed
            }),
        },
{
    let v = to_chars(s);
    match e_doc(&v) {
        Some(c) => Ok(c),
        None => {
            proof {
                assert(v@.skip(0) =~= v@);
            }
            if e_lex_ok(&v, 0) {
                Err(DecodeError::SchemaMismatch)
            } else {
                Err(DecodeError::Malformed)
            }
        },
    }
}

// ---------------------------------------------------------------------------
// Round trip: the stored form of a document parses back to that document
// ---------------------------------------------------------------------------

/// A literal at the front of a text is consumed exactly.
proof fn lemma_p_lit_prefix(lit: Seq<char>, rest: Seq<char>)
    ensures
        p_lit(lit + rest, lit) == Some(rest),
{
    assert((lit + rest).take(lit.len() as int) =~= lit);
    assert((lit + rest).skip(lit.len() as int) =~= rest);
}

/// A character at the front of a text is consumed exactly.
proof fn lemma_p_char_prefix(c: char, rest: Seq<char>)
    ensures
        p_char(seq![c] + rest, c) == Some(rest),
{
    assert((seq![c] + rest)[0] == c);
    assert((seq![c] + rest).skip(1) =~= rest);
}

/// A header line at the front of a text is consumed exactly.
proof fn lemma_p_header_of_enc(name: Seq<char>, rest: Seq<char>)
    ensures
        p_header(header(name) + rest, name) == Some(rest),
{
    let r3 = seq!['\n'] + rest;
    let r2 = seq![']'] + r3;
    let r1 = name + r2;
    assert(header(name) + rest =~= seq!['['] + r1);
    lemma_p_char_prefix('[', r1);
    lemma_p_lit_prefix(name, r2);
    lemma_p_char_prefix(']', r3);
    lemma_p_char_prefix('\n', rest);
}

/// An escaped string followed by its closing quote parses back to the
/// string it came from.
proof fn lemma_p_str_body_of_escape(t: Seq<char>, rest: Seq<char>)
    ensures
        p_str_body(escape(t) + seq!['"'] + rest) == Some((t, rest)),
    decreases t.len(),
{
    let s = escape(t) + seq!['"'] + rest;
    if t.len() == 0 {
        assert(escape(t) =~= Seq::<char>::empty());
        assert(s =~= seq!['"'] + rest);
        assert((seq!['"'] + rest)[0] == '"');
        assert((seq!['"'] + rest).skip(1) =~= rest);
        assert(t =~= Seq::<char>::empty());
    } else {
        let c = t[0];
        let e = esc_char(c);
        let s2 = escape(t.skip(1)) + seq!['"'] + rest;
        assert(escape(t) == e + escape(t.skip(1)));
        assert(s =~= e + s2);
        lemma_p_str_body_of_escape(t.skip(1), rest);
        if c == '\\' || c == '"' || c == '\n' || c == '\r' {
            assert(e.len() == 2);
            assert(s[0] == '\\');
            assert(s[1] == e[1]);
            assert(is_escapable(e[1]));
            assert(unesc_char(e[1]) == c);
            assert(s.skip(2) =~= s2);
            assert(seq![c] + t.skip(1) =~= t);
        } else {
            assert(e =~= seq![c]);
            assert(s[0] == c);
            assert(s[0] != '"' && s[0] != '\\' && s[0] != '\n');
            assert(s.skip(1) =~= s2);
            assert(seq![c] + t.skip(1) =~= t);
        }
    }
}

/// A run of digits at the front of a text is consumed exactly when what
/// follows is no digit.
proof fn lemma_p_digits_exact(d: Seq<char>, rest: Seq<char>)
    requires
        forall|m: int| 0 <= m < d.len() ==> is_digit(#[trigger] d[m]),
        rest.len() == 0 || !is_digit(rest[0]),
    ensures
        p_digits(d + rest) == (d, rest),
    decreases d.len(),
{
    if d.len() == 0 {
        assert(d + rest =~= rest);
        assert(d =~= Seq::<char>::empty());
        assert(p_digits(rest).0 =~= d);
    } else {
        assert((d + rest)[0] == d[0]);
        assert((d + rest).skip(1) =~= d.skip(1) + rest);
        lemma_p_digits_exact(d.skip(1), rest);
        assert(seq![d[0]] + d.skip(1) =~= d);
        assert(p_digits(d + rest).0 == d);
    }
}

/// A decimal form is a nonempty run of digits.
proof fn lemma_dec_digits(n: nat)
    ensures
        dec(n).len() >= 1,
        forall|m: int| 0 <= m < dec(n).len() ==> is_digit(#[trigger] dec(n)[m]),
    decreases n,
{
    if n < 10 {
    } else {
        lemma_dec_digits(n / 10);
        assert forall|m: int| 0 <= m < dec(n).len() implies is_digit(#[trigger] dec(n)[m]) by {
            if m < dec(n / 10).len() {
                assert(dec(n)[m] == dec(n / 10)[m]);
            } else {
                assert(dec(n)[m] == digit_char(n % 10));
            }
        }
    }
}

/// Reading a decimal form back gives the number it encodes.
proof fn lemma_digits_val_dec(n: nat)
    ensures
        digits_val(dec(n)) == n,
    decreases n,
{
    if n < 10 {
        assert(dec(n).drop_last() =~= Seq::<char>::empty());
        assert(dec(n).last() == digit_char(n));
        assert(digits_val(Seq::<char>::empty()) == 0);
        assert(digits_val(dec(n)) == digit_val(digit_char(n)));
    } else {
        lemma_digits_val_dec(n / 10);
        assert(dec(n).drop_last() =~= dec(n / 10));
        assert(dec(n).last() == digit_char(n % 10));
    }
}

/// A decimal form at the front of a text is consumed as its number.
proof fn lemma_p_u64_of_dec(n: u64, rest: Seq<char>)
    requires
        rest.len() == 0 || !is_digit(rest[0]),
    ensures
        p_u64(dec(n as nat) + rest) == Some((n, rest)),
{
    lemma_dec_digits(n as nat);
    lemma_p_digits_exact(dec(n as nat), rest);
    lemma_digits_val_dec(n as nat);
}

/// A comma-separated run of numbers parses back to those numbers when a
/// closing bracket follows.
proof fn lemma_p_arr_items_of_enc(ns: Seq<u64>, rest: Seq<char>)
    requires
        ns.len() >= 1,
        rest.len() >= 1,
        rest[0] == ']',
    ensures
        p_arr_items(arr_items_enc(ns) + rest) == Some((ns, rest)),
    decreases ns.len(),
{
    reveal_strlit(", ");
    let s = arr_items_enc(ns) + rest;
    if ns.len() == 1 {
        assert(s =~= dec(ns[0] as nat) + rest);
        lemma_p_u64_of_dec(ns[0], rest);
        assert(!starts_with(rest, ", "@)) by {
            if starts_with(rest, ", "@) {
                assert(rest.take(2)[0] == ", "@[0]);
                assert(rest.take(2)[0] == rest[0]);
            }
        }
        assert(seq![ns[0]] =~= ns);
    } else {
        let rest2 = ", "@ + (arr_items_enc(ns.skip(1)) + rest);
        assert(s =~= dec(ns[0] as nat) + rest2);
        assert(rest2[0] == ',');
        lemma_p_u64_of_dec(ns[0], rest2);
        assert(rest2.take(2) =~= ", "@);
        assert(starts_with(rest2, ", "@));
        assert(rest2.skip(2) =~= arr_items_enc(ns.skip(1)) + rest);
        lemma_p_arr_items_of_enc(ns.skip(1), rest);
        assert(seq![ns[0]] + ns.skip(1) =~= ns);
    }
}

/// A stored string line is consumed back to its key's value.
proof fn lemma_p_kv_str_of_line(key: Seq<char>, t: Seq<char>, rest: Seq<char>)
    ensures
        p_kv_str(line_str(key, t) + rest, key) == Some((t, rest)),
{
    let r4 = seq!['\n'] + rest;
    let r3 = escape(t) + (seq!['"'] + r4);
    let r2 = seq!['"'] + r3;
    let r1 = " = "@ + r2;
    assert(line_str(key, t) + rest =~= key + r1);
    lemma_p_lit_prefix(key, r1);
    lemma_p_lit_prefix(" = "@, r2);
    lemma_p_char_prefix('"', r3);
    assert(r3 =~= escape(t) + seq!['"'] + r4);
    lemma_p_str_body_of_escape(t, r4);
    lemma_p_char_prefix('\n', rest);
}

/// A stored number line is consumed back to its key's value.
proof fn lemma_p_kv_u64_of_line(key: Seq<char>, n: u64, rest: Seq<char>)
    ensures
        p_kv_u64(line_u64(key, n) + rest, key) == Some((n, rest)),
{
    let r3 = seq!['\n'] + rest;
    let r2 = dec(n as nat) + r3;
    let r1 = " = "@ + r2;
    assert(line_u64(key, n) + rest =~= key + r1);
    lemma_p_lit_prefix(key, r1);
    lemma_p_lit_prefix(" = "@, r2);
    assert(r3[0] == '\n');
    lemma_p_u64_of_dec(n, r3);
    lemma_p_char_prefix('\n', rest);
}

/// A stored boolean line is consumed back to its key's value.
proof fn lemma_p_kv_bool_of_line(key: Seq<char>, b: bool, rest: Seq<char>)
    ensures
        p_kv_bool(line_bool(key, b) + rest, key) == Some((b, rest)),
{
    reveal_strlit("true");
    reveal_strlit("false");
    let r3 = seq!['\n'] + rest;
    let bs = if b {
        "true"@
    } else {
        "false"@
    };
    let r2 = bs + r3;
    let r1 = " = "@ + r2;
    assert(line_bool(key, b) + rest =~= key + r1);
    lemma_p_lit_prefix(key, r1);
    lemma_p_lit_prefix(" = "@, r2);
    if b {
        lemma_p_lit_prefix("true"@, r3);
        lemma_p_char_prefix('\n', rest);
    } else {
        assert(r2[0] == 'f');
        assert(!starts_with(r2, "true"@)) by {
            if starts_with(r2, "true"@) {
                assert(r2.take(4)[0] == "true"@[0]);
                assert(r2.take(4)[0] == r2[0]);
            }
        }
        lemma_p_lit_prefix("false"@, r3);
        lemma_p_char_prefix('\n', rest);
    }
}

/// A stored list line is consumed back to its key's values.
proof fn lemma_p_kv_arr_of_line(key: Seq<char>, ns: Seq<u64>, rest: Seq<char>)
    ensures
        p_kv_arr(line_arr(key, ns) + rest, key) == Some((ns, rest)),
{
    let r5 = seq!['\n'] + rest;
    let r4 = seq![']'] + r5;
    let r3 = arr_items_enc(ns) + r4;
    let r2 = seq!['['] + r3;
    let r1 = " = "@ + r2;
    assert(line_arr(key, ns) + rest =~= key + r1);
    lemma_p_lit_prefix(key, r1);
    lemma_p_lit_prefix(" = "@, r2);
    lemma_p_char_prefix('[', r3);
    if ns.len() == 0 {
        assert(r3 =~= seq![']'] + r5);
        lemma_p_char_prefix(']', r5);
        lemma_p_char_prefix('\n', rest);
        assert(Seq::<u64>::empty() =~= ns);
    } else {
        lemma_dec_digits(ns[0] as nat);
        assert(arr_items_enc(ns)[0] == dec(ns[0] as nat)[0]);
        assert(r3[0] == arr_items_enc(ns)[0]);
        assert(is_digit(r3[0]));
        assert(r3[0] != ']');
        assert(r4[0] == ']');
        lemma_p_arr_items_of_enc(ns, r4);
        lemma_p_char_prefix(']', r5);
        lemma_p_char_prefix('\n', rest);
    }
}

/// A stored level line is consumed back to its level.
proof fn lemma_p_kv_level_of_line(key: Seq<char>, l: Level, rest: Seq<char>)
    ensures
        p_kv_level(line_u64(key, level_int(l)) + rest, key) == Some((l, rest)),
{
    lemma_p_kv_u64_of_line(key, level_int(l), rest);
    crate::level::lemma_level_int_inverse(l);
}

/// The stored server section is consumed back to its value.
proof fn lemma_p_minecraft_of_enc(m: MinecraftView, rest: Seq<char>)
    ensures
        p_minecraft(enc_minecraft(m) + rest) == Some((m, rest)),
{
    reveal_strlit("jvm_flags");
    reveal_strlit("auto_start");
    let lb = line_bool("auto_start"@, m.auto_start) + rest;
    match m.jvm_flags {
        Some(t) => {
            let lj = line_str("jvm_flags"@, t) + lb;
            let lm = line_u64("memory"@, m.memory as u64) + lj;
            let ls = line_str("server_path"@, m.server_path) + lm;
            assert(enc_minecraft(m) + rest =~= header("minecraft"@) + ls);
            lemma_p_header_of_enc("minecraft"@, ls);
            lemma_p_kv_str_of_line("server_path"@, m.server_path, lm);
            lemma_p_kv_u64_of_line("memory"@, m.memory as u64, lj);
            lemma_p_kv_str_of_line("jvm_flags"@, t, lb);
            lemma_p_kv_bool_of_line("auto_start"@, m.auto_start, rest);
        },
        None => {
            let lm = line_u64("memory"@, m.memory as u64) + lb;
            let ls = line_str("server_path"@, m.server_path) + lm;
            assert(enc_minecraft(m) + rest =~= header("minecraft"@) + ls);
            lemma_p_header_of_enc("minecraft"@, ls);
            lemma_p_kv_str_of_line("server_path"@, m.server_path, lm);
            lemma_p_kv_u64_of_line("memory"@, m.memory as u64, lb);
            assert(lb[0] == 'a');
            assert(!starts_with(lb, "jvm_flags"@)) by {
                if starts_with(lb, "jvm_flags"@) {
                    assert(lb.take(9)[0] == "jvm_flags"@[0]);
                    assert(lb.take(9)[0] == lb[0]);
                }
            }
            lemma_p_kv_bool_of_line("auto_start"@, m.auto_start, rest);
        },
    }
}

/// The stored bridge section is consumed back to its value.
proof fn lemma_p_discord_of_enc(d: DiscordView, rest: Seq<char>)
    ensures
        p_discord(enc_discord(d) + rest) == Some((d, rest)),
{
    let l6 = line_str("command_prefix"@, d.command_prefix) + rest;
    let l5 = line_arr("admin_id_list"@, d.admin_id_list) + l6;
    let l4 = line_bool("update_status"@, d.update_status) + l5;
    let l3 = line_u64("channel_id"@, d.channel_id) + l4;
    let l2 = line_str("token"@, d.token) + l3;
    let l1 = line_bool("enable_bridge"@, d.enable_bridge) + l2;
    assert(enc_discord(d) + rest =~= header("discord"@) + l1);
    lemma_p_header_of_enc("discord"@, l1);
    lemma_p_kv_bool_of_line("enable_bridge"@, d.enable_bridge, l2);
    lemma_p_kv_str_of_line("token"@, d.token, l3);
    lemma_p_kv_u64_of_line("channel_id"@, d.channel_id, l4);
    lemma_p_kv_bool_of_line("update_status"@, d.update_status, l5);
    lemma_p_kv_arr_of_line("admin_id_list"@, d.admin_id_list, l6);
    lemma_p_kv_str_of_line("command_prefix"@, d.command_prefix, rest);
}

/// The stored logging section is consumed back to its value.
proof fn lemma_p_logging_of_enc(l: LoggingView, rest: Seq<char>)
    ensures
        p_logging(enc_logging(l) + rest) == Some((l, rest)),
{
    let l3 = line_u64("discord"@, level_int(l.discord)) + rest;
    let l2 = line_u64("self"@, level_int(l.self_level)) + l3;
    let l1 = line_u64("all"@, level_int(l.all)) + l2;
    assert(enc_logging(l) + rest =~= header("logging"@) + l1);
    lemma_p_header_of_enc("logging"@, l1);
    lemma_p_kv_level_of_line("all"@, l.all, l2);
    lemma_p_kv_level_of_line("self"@, l.self_level, l3);
    lemma_p_kv_level_of_line("discord"@, l.discord, rest);
}

/// A logging section does not begin with a bridge header.
proof fn lemma_logging_not_discord(l: LoggingView)
    ensures
        p_header(enc_logging(l), "discord"@) is None,
{
    reveal_strlit("discord");
    reveal_strlit("logging");
    let el = enc_logging(l);
    assert(el =~= header("logging"@) + (line_u64("all"@, level_int(l.all)) + (line_u64(
        "self"@,
        level_int(l.self_level),
    ) + line_u64("discord"@, level_int(l.discord)))));
    assert(el[1] == 'l');
    if p_header(el, "discord"@) is Some {
        let r = p_char(el, '[')->0;
        assert(r[0] == el[1]);
        assert(starts_with(r, "discord"@));
        assert(r.take(7)[0] == "discord"@[0]);
        assert(r.take(7)[0] == r[0]);
    }
}

/// Round trip with a bridge section present.
proof fn lemma_round_trip_some(c: ConfigView, d: DiscordView)
    requires
        c.discord == Some(d),
    ensures
        p_doc(spec_encode(c)) == Some(c),
{
    let s = spec_encode(c);
    let el = enc_logging(c.logging);
    let r1 = enc_discord(d) + el;
    assert(s =~= enc_minecraft(c.minecraft) + r1);
    lemma_p_minecraft_of_enc(c.minecraft, r1);
    lemma_p_discord_of_enc(d, el);
    lemma_p_logging_of_enc(c.logging, Seq::empty());
    assert(el + Seq::<char>::empty() =~= el);
    assert(p_logging(el) == Some((c.logging, Seq::<char>::empty())));
}

/// Round trip with the bridge section absent.
proof fn lemma_round_trip_none(c: ConfigView)
    requires
        c.discord is None,
    ensures
        p_doc(spec_encode(c)) == Some(c),
{
    let s = spec_encode(c);
    let el = enc_logging(c.logging);
    assert(s =~= enc_minecraft(c.minecraft) + el);
    lemma_p_minecraft_of_enc(c.minecraft, el);
    lemma_logging_not_discord(c.logging);
    lemma_p_logging_of_enc(c.logging, Seq::empty());
    assert(el + Seq::<char>::empty() =~= el);
    assert(p_logging(el) == Some((c.logging, Seq::<char>::empty())));
}

/// Round-trip law: the stored form of every settings document parses back
/// to a document of exactly the same value, so `decode` after `encode`
/// returns the document it was given.
pub proof fn lemma_round_trip(c: ConfigView)
    ensures
        p_doc(spec_encode(c)) == Some(c),
{
    match c.discord {
        Some(d) => lemma_round_trip_some(c, d),
        None => lemma_round_trip_none(c),
    }
}

/// What a first run stores is exactly the stored form of the default
/// document, so reading the freshly materialized file yields a document
/// equal to the default one.
pub proof fn lemma_default_materialization()
    ensures
        p_doc(spec_encode(crate::config::spec_default_config())) == Some(
            crate::config::spec_default_config(),
        ),
{
    lemma_round_trip(crate::config::spec_default_config());
}

/// Decode text read from the file at `path`, wrapping a decode failure in
/// the loader's error type so the offending path travels with it.
pub fn decode_loaded(text: &str, path: &str) -> (r: Result<Config, ConfigError>)
    ensures
        match r {
            Ok(c) => p_doc(text@) == Some(c@),
            Err(e) => p_doc(text@) is None && match e {
                ConfigError::DecodeError { path: p, cause } => p@ == path@ && cause == (
                if lex_ok(text@) {
                    DecodeError::SchemaMismatch
                } else {
                    DecodeError::Malformed
                }),
                _ => false,
            },
        },
{
    match decode(text) {
        Ok(c) => Ok(c),
        Err(cause) => Err(ConfigError::DecodeError { path: path.to_owned(), cause }),
    }
}

} // verus!
