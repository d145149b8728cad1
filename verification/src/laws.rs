//! The laws the configuration store obeys, chief among them round-trip
//! structural idempotence: parsing what the serializer emitted yields the
//! same preamble and the same hosts, field for field and in order
//! (`lemma_parse_serialize_round_trip`), and re-serializing reproduces the
//! text exactly (`lemma_serialize_idempotent`).
//!
//! `wf_preamble` and `wf_host` say which values the round trip covers.
//! They are meant to admit everything the parser itself can produce except
//! a few degenerate shapes the emitted syntax cannot carry: an
//! extra-option key holding whitespace or `=` or spelled like a directive,
//! a value holding `=`, an empty extra-option value, and a preamble line
//! ending in a bare carriage return. `lemma_parse_output_produced` proves
//! that every parsed host has the well-formed shape up to exactly those
//! exclusions.

use crate::config::{
    all_host_lines, apply_option, comment_pos_from, first_eq_from, first_nl_from, first_ws_from,
    flush, has_prefix_ci, host_lines, init_state, is_header_line, kw_host_sp, kw_hostname,
    kw_identityfile, kw_port, kw_user, norm_preamble, option_line, parse_line, parse_lines,
    spec_lines, spec_parse, spec_serialize, split_kv_spec, strip_comment_spec, strip_tail_cr,
    unlines, ParseState,
};
use crate::host::{empty_host_view, HostView};
use crate::text::{
    all_digits, dec_digits, digits_val, is_digit_char, is_space_char, lower_char, lower_seq,
    parse_port_spec, parse_u16_spec, plus_stripped, trim_end_spec, trim_spec, trim_start_spec,
};
use vstd::prelude::*;

verus! {

// ------------------------------------------------------------------
// What the emitted syntax can carry
// ------------------------------------------------------------------
/// A field value as the parser itself produces it: trimmed, free of
/// comment starts, and expressible on one emitted line (no newline, no
/// `=`, which the splitter would seize on).
pub open spec fn wf_value(v: Seq<char>) -> bool {
    &&& trim_spec(v) == v
    &&& strip_comment_spec(v) == v
    &&& forall|i: int| 0 <= i < v.len() ==> v[i] != '\n' && v[i] != '='
}

/// An alias as the parser produces it: non-empty, not the wildcard,
/// trimmed, free of comment starts and of newlines.
pub open spec fn wf_alias(a: Seq<char>) -> bool {
    &&& a.len() > 0
    &&& a != seq!['*']
    &&& trim_spec(a) == a
    &&& strip_comment_spec(a) == a
    &&& forall|i: int| 0 <= i < a.len() ==> a[i] != '\n'
}

/// An extra-option key that survives the trip: non-empty, no comment
/// start, no whitespace, no `=`, no newline, and not spelled like one of
/// the directives the parser claims for itself.
pub open spec fn wf_extra_key(k: Seq<char>) -> bool {
    &&& k.len() > 0
    &&& k[0] != '#'
    &&& (forall|i: int| 0 <= i < k.len() ==> k[i] != '\n' && k[i] != '=' && !is_space_char(k[i]))
    &&& lower_seq(k) != kw_hostname()
    &&& lower_seq(k) != kw_port()
    &&& lower_seq(k) != kw_user()
    &&& lower_seq(k) != kw_identityfile()
    &&& lower_seq(k) != seq!['h', 'o', 's', 't']
}

/// Extra options that survive the trip: well-formed keys, well-formed
/// non-empty values.
pub open spec fn wf_extras(ps: Seq<(Seq<char>, Seq<char>)>) -> bool {
    forall|i: int|
        0 <= i < ps.len() ==> wf_extra_key(#[trigger] ps[i].0) && wf_value(ps[i].1)
            && ps[i].1.len() > 0
}

/// A host entry whose emitted block parses back to the same entry.
pub open spec fn wf_host(h: HostView) -> bool {
    &&& wf_alias(h.alias)
    &&& wf_value(h.hostname)
    &&& wf_value(h.user)
    &&& wf_value(h.identity_file)
    &&& wf_extras(h.extra_options)
}

pub open spec fn wf_hosts(hs: Seq<HostView>) -> bool {
    forall|i: int| 0 <= i < hs.len() ==> wf_host(#[trigger] hs[i])
}

/// A preamble the round trip covers, up to trailing-newline
/// normalization: no carriage return directly before a newline (nor as
/// the final character of an unterminated preamble, where the serializer
/// would put a newline after it), and no line that would open a host
/// block.
pub open spec fn wf_preamble(p: Seq<char>) -> bool {
    &&& (forall|i: int| 1 <= i < p.len() && #[trigger] p[i] == '\n' ==> p[i - 1] != '\r')
    &&& (p.len() > 0 && p.last() != '\n' ==> p.last() != '\r')
    &&& (forall|i: int|
        0 <= i < spec_lines(p).len() ==> !is_header_line(trim_spec(#[trigger] spec_lines(p)[i])))
}

/// A well-formed preamble that is also newline-terminated, the form the
/// serializer actually emits and the parser replays line by line.
spec fn replayable_preamble(p: Seq<char>) -> bool {
    &&& (p.len() == 0 || p.last() == '\n')
    &&& (forall|i: int| 1 <= i < p.len() && #[trigger] p[i] == '\n' ==> p[i - 1] != '\r')
    &&& (forall|i: int|
        0 <= i < spec_lines(p).len() ==> !is_header_line(trim_spec(#[trigger] spec_lines(p)[i])))
}

/// A line the joiner may emit: free of newlines and not ending in a
/// carriage return, so that splitting gives it back unchanged.
pub open spec fn clean_line(l: Seq<char>) -> bool {
    (forall|i: int| 0 <= i < l.len() ==> l[i] != '\n') && (l.len() > 0 ==> l.last() != '\r')
}

pub open spec fn clean_lines(ls: Seq<Seq<char>>) -> bool {
    forall|i: int| 0 <= i < ls.len() ==> clean_line(#[trigger] ls[i])
}

// ------------------------------------------------------------------
// Splitting undoes joining
// ------------------------------------------------------------------
/// The position of a newline with none before it is where the line
/// splitter cuts.
proof fn lemma_first_nl_pinned(s: Seq<char>, k: int)
    requires
        0 <= k < s.len(),
        s[k] == '\n',
        forall|i: int| 0 <= i < k ==> s[i] != '\n',
    ensures
        first_nl_from(s, 0) == k,
{
    crate::config::lemma_first_nl(s, 0);
    let f = first_nl_from(s, 0);
    if f < k {
        assert(s[f] == '\n');
    }
    if f > k {
        assert(s[k] != '\n');
    }
}

/// Splitting the joined lines gives the lines back, provided each is
/// clean.
pub proof fn lemma_lines_unlines(ls: Seq<Seq<char>>)
    requires
        clean_lines(ls),
    ensures
        spec_lines(unlines(ls)) == ls,
    decreases ls.len(),
{
    if ls.len() == 0 {
        assert(spec_lines(unlines(ls)) =~= ls);
    } else {
        let l0 = ls[0];
        let rest = ls.drop_first();
        let s = unlines(ls);
        assert(s == l0 + seq!['\n'] + unlines(rest));
        let k = l0.len() as int;
        assert(s[k] == '\n');
        assert(forall|i: int| 0 <= i < k ==> s[i] == l0[i] && s[i] != '\n');
        lemma_first_nl_pinned(s, k);
        assert(s.take(k) =~= l0);
        assert(strip_tail_cr(l0) == l0);
        assert(s.skip(k + 1) =~= unlines(rest));
        assert(clean_lines(rest)) by {
            assert(forall|i: int| 0 <= i < rest.len() ==> rest[i] == ls[i + 1]);
        }
        lemma_lines_unlines(rest);
        assert(spec_lines(s) =~= seq![l0] + spec_lines(unlines(rest)));
        assert(seq![l0] + rest =~= ls);
    }
}

/// Lines distribute over concatenation when the first part is
/// newline-terminated.
pub proof fn lemma_lines_concat(a: Seq<char>, b: Seq<char>)
    requires
        a.len() == 0 || a.last() == '\n',
    ensures
        spec_lines(a + b) == spec_lines(a) + spec_lines(b),
    decreases a.len(),
{
    if a.len() == 0 {
        assert(a + b =~= b);
        assert(spec_lines(a) + spec_lines(b) =~= spec_lines(b));
    } else {
        crate::config::lemma_first_nl(a, 0);
        let k = first_nl_from(a, 0);
        assert(k < a.len()) by {
            if k == a.len() {
                assert(a[a.len() - 1] != '\n');
            }
        }
        let s = a + b;
        assert(s[k] == a[k]);
        assert(forall|i: int| 0 <= i < k ==> s[i] == a[i] && s[i] != '\n');
        lemma_first_nl_pinned(s, k);
        assert(s.take(k) =~= a.take(k));
        assert(s.skip(k + 1) =~= a.skip(k + 1) + b);
        let a2 = a.skip(k + 1);
        assert(a2.len() == 0 || a2.last() == '\n') by {
            if a2.len() > 0 {
                assert(a2.last() == a.last());
            }
        }
        lemma_lines_concat(a2, b);
        if b.len() == 0 && a2.len() == 0 {
            assert(spec_lines(s) =~= seq![strip_tail_cr(s.take(k))] + spec_lines(a2 + b));
            assert(spec_lines(a) =~= seq![strip_tail_cr(a.take(k))] + spec_lines(a2));
            assert(spec_lines(a + b) =~= spec_lines(a) + spec_lines(b));
        } else {
            assert(spec_lines(s) == seq![strip_tail_cr(s.take(k))] + spec_lines(a2 + b));
            assert(spec_lines(a) == seq![strip_tail_cr(a.take(k))] + spec_lines(a2));
            assert(spec_lines(a + b) =~= spec_lines(a) + spec_lines(b));
        }
    }
}

/// Parsing a concatenation of line lists is parsing one after the other.
pub proof fn lemma_parse_lines_append(st: ParseState, ls1: Seq<Seq<char>>, ls2: Seq<Seq<char>>)
    ensures
        parse_lines(st, ls1 + ls2) == parse_lines(parse_lines(st, ls1), ls2),
    decreases ls1.len(),
{
    if ls1.len() == 0 {
        assert(ls1 + ls2 =~= ls2);
    } else {
        assert((ls1 + ls2)[0] == ls1[0]);
        assert((ls1 + ls2).drop_first() =~= ls1.drop_first() + ls2);
        lemma_parse_lines_append(parse_line(st, ls1[0]), ls1.drop_first(), ls2);
    }
}


// ------------------------------------------------------------------
// Small facts about trimming, searching and digits
// ------------------------------------------------------------------
proof fn lemma_trim_start_len(s: Seq<char>)
    ensures
        trim_start_spec(s).len() <= s.len(),
        s.len() > 0 && is_space_char(s[0]) ==> trim_start_spec(s).len() < s.len(),
    decreases s.len(),
{
    if s.len() > 0 && is_space_char(s[0]) {
        lemma_trim_start_len(s.drop_first());
    }
}

proof fn lemma_trim_end_len(s: Seq<char>)
    ensures
        trim_end_spec(s).len() <= s.len(),
        s.len() > 0 && is_space_char(s.last()) ==> trim_end_spec(s).len() < s.len(),
    decreases s.len(),
{
    if s.len() > 0 && is_space_char(s.last()) {
        lemma_trim_end_len(s.drop_last());
    }
}

/// A string the trim leaves alone neither starts nor ends with
/// whitespace.
proof fn lemma_trimmed_ends(v: Seq<char>)
    requires
        trim_spec(v) == v,
        v.len() > 0,
    ensures
        !is_space_char(v[0]),
        !is_space_char(v.last()),
{
    lemma_trim_start_len(v);
    lemma_trim_end_len(trim_start_spec(v));
    if is_space_char(v[0]) {
        assert(trim_spec(v).len() < v.len());
    }
    assert(trim_start_spec(v) == v);
    if is_space_char(v.last()) {
        assert(trim_spec(v).len() < v.len());
    }
}

proof fn lemma_first_ws_pinned(s: Seq<char>, k: int)
    requires
        0 <= k < s.len(),
        is_space_char(s[k]),
        forall|i: int| 0 <= i < k ==> !is_space_char(s[i]),
    ensures
        first_ws_from(s, 0) == k,
{
    crate::config::lemma_first_ws(s, 0);
    let f = first_ws_from(s, 0);
    if f < k {
        assert(is_space_char(s[f]));
    }
    if f > k {
        assert(!is_space_char(s[k]));
    }
}

proof fn lemma_first_eq_none(s: Seq<char>)
    requires
        forall|i: int| 0 <= i < s.len() ==> s[i] != '=',
    ensures
        first_eq_from(s, 0) == s.len(),
{
    crate::config::lemma_first_eq(s, 0);
    let f = first_eq_from(s, 0);
    if f < s.len() {
        assert(s[f] != '=');
    }
}

/// A string without `#` holds no comment start, whatever quote state the
/// scan is in.
proof fn lemma_comment_pos_no_hash(s: Seq<char>, i: int, in_quote: bool, qc: char)
    requires
        0 <= i <= s.len(),
        forall|j: int| i <= j < s.len() ==> s[j] != '#',
    ensures
        comment_pos_from(s, i, in_quote, qc) is None,
    decreases s.len() - i,
{
    if i < s.len() {
        if in_quote {
            lemma_comment_pos_no_hash(s, i + 1, s[i] != qc, qc);
        } else if s[i] == '"' || s[i] == '\'' {
            lemma_comment_pos_no_hash(s, i + 1, true, s[i]);
        } else {
            lemma_comment_pos_no_hash(s, i + 1, false, qc);
        }
    }
}

proof fn lemma_dec_digits_are_digits(n: int)
    requires
        n >= 0,
    ensures
        all_digits(dec_digits(n)),
        dec_digits(n).len() >= 1,
    decreases n,
{
    if n < 10 {
        assert(is_digit_char((48 + n) as char));
        assert(all_digits(dec_digits(n))) by {
            assert(forall|i: int|
                0 <= i < dec_digits(n).len() ==> dec_digits(n)[i] == (48 + n) as char);
        }
    } else {
        lemma_dec_digits_are_digits(n / 10);
        let d = dec_digits(n / 10);
        let c = (48 + n % 10) as char;
        assert(is_digit_char(c));
        assert(forall|i: int| 0 <= i < d.len() ==> #[trigger] d.push(c)[i] == d[i]);
        assert(d.push(c)[d.len() as int] == c);
    }
}

proof fn lemma_digits_val_dec_digits(n: int)
    requires
        n >= 0,
    ensures
        digits_val(dec_digits(n)) == n,
    decreases n,
{
    if n < 10 {
        let d = dec_digits(n);
        assert(d.drop_last() =~= Seq::<char>::empty());
        assert(digits_val(Seq::<char>::empty()) == 0);
        assert(d.last() == (48 + n) as char);
        assert((48 + n) as char as int == 48 + n);
        assert('0' as int == 48);
        assert(digits_val(d) == 0 * 10 + ((48 + n) - 48));
    } else {
        lemma_digits_val_dec_digits(n / 10);
        let d = dec_digits(n);
        assert(d.drop_last() =~= dec_digits(n / 10));
        assert(d.last() == (48 + n % 10) as char);
        assert((48 + n % 10) as char as int == 48 + n % 10);
        assert('0' as int == 48);
        assert(digits_val(d) == digits_val(d.drop_last()) * 10 + (d.last() as int - 48));
    }
}

/// The emitted decimal form of a port parses back to the same port.
pub proof fn lemma_parse_port_dec_digits(n: u16)
    ensures
        parse_port_spec(dec_digits(n as int)) == n,
{
    let d = dec_digits(n as int);
    lemma_dec_digits_are_digits(n as int);
    lemma_digits_val_dec_digits(n as int);
    assert(d[0] != '+') by {
        assert(is_digit_char(d[0]));
    }
    assert(plus_stripped(d) == d);
    assert(parse_u16_spec(d) == Some(digits_val(d) as u16));
}

/// Digits are ordinary text: a port value is well formed for a line.
proof fn lemma_port_value_clean(n: u16)
    ensures
        ({
            let d = dec_digits(n as int);
            &&& d.len() > 0
            &&& trim_spec(d) == d
            &&& strip_comment_spec(d) == d
            &&& forall|i: int|
                0 <= i < d.len() ==> d[i] != '\n' && d[i] != '=' && !is_space_char(d[i]) && d[i]
                    != '#'
        }),
{
    let d = dec_digits(n as int);
    lemma_dec_digits_are_digits(n as int);
    assert(forall|i: int|
        0 <= i < d.len() ==> is_digit_char(#[trigger] d[i]) && d[i] != '\n' && d[i] != '='
            && !is_space_char(d[i]) && d[i] != '#');
    crate::text::lemma_trim_of_trimmed(d);
    lemma_comment_pos_no_hash(d, 0, false, ' ');
}

// ------------------------------------------------------------------
// Reparsing single emitted lines
// ------------------------------------------------------------------
proof fn lemma_kw_lowers()
    ensures
        lower_seq(seq!['H', 'o', 's', 't', 'N', 'a', 'm', 'e']) == kw_hostname(),
        lower_seq(seq!['U', 's', 'e', 'r']) == kw_user(),
        lower_seq(seq!['P', 'o', 'r', 't']) == kw_port(),
        lower_seq(
            seq!['I', 'd', 'e', 'n', 't', 'i', 't', 'y', 'F', 'i', 'l', 'e'],
        ) == kw_identityfile(),
        kw_user() != kw_hostname(),
        kw_user() != kw_port(),
        kw_port() != kw_hostname(),
        kw_user() != seq!['h', 'o', 's', 't'],
        kw_port() != seq!['h', 'o', 's', 't'],
        kw_identityfile() != kw_hostname(),
        kw_identityfile() != kw_port(),
        kw_identityfile() != kw_user(),
{
    assert(lower_seq(seq!['H', 'o', 's', 't', 'N', 'a', 'm', 'e']) =~= kw_hostname());
    assert(lower_seq(seq!['U', 's', 'e', 'r']) =~= kw_user());
    assert(lower_seq(seq!['P', 'o', 'r', 't']) =~= kw_port());
    assert(lower_seq(seq!['I', 'd', 'e', 'n', 't', 'i', 't', 'y', 'F', 'i', 'l', 'e'])
        =~= kw_identityfile());
    assert(kw_user()[0] != kw_hostname()[0] || kw_user().len() != kw_hostname().len());
    assert(kw_user()[0] != 'h');
    assert(kw_port()[0] != 'h');
}

/// The trimmed form of an emitted option line, and how the key/value
/// splitter takes it apart again.
#[verifier::rlimit(100)]
proof fn lemma_option_line_reparse(kw: Seq<char>, v: Seq<char>)
    requires
        kw.len() > 0,
        forall|i: int|
            0 <= i < kw.len() ==> !is_space_char(#[trigger] kw[i]) && kw[i] != '=' && kw[i]
                != '\n',
        v.len() > 0,
        trim_spec(v) == v,
        forall|i: int| 0 <= i < v.len() ==> v[i] != '\n' && v[i] != '=',
    ensures
        ({
            let t = trim_spec(option_line(kw, v));
            &&& t == kw + seq![' '] + v
            &&& split_kv_spec(t).0 == kw
            &&& split_kv_spec(t).1 == v
            &&& t.len() > 0
            &&& t[0] == kw[0]
        }),
{
    let line = option_line(kw, v);
    let t0 = kw + seq![' '] + v;
    lemma_trimmed_ends(v);
    assert(forall|i: int| 0 <= i < 4 ==> is_space_char(line[i]));
    assert(line[4] == kw[0]);
    crate::text::lemma_trim_start_skip(line, 4);
    assert(line.skip(4) =~= t0);
    assert(t0.last() == v.last());
    crate::text::lemma_trim_end_take(t0, t0.len() as int);
    assert(t0.take(t0.len() as int) =~= t0);
    assert(trim_spec(line) == t0);
    // the splitter: no `=` anywhere, first whitespace right after the key
    assert(forall|i: int| 0 <= i < t0.len() ==> t0[i] != '=') by {
        assert(forall|i: int| 0 <= i < kw.len() ==> t0[i] == kw[i]);
        assert(t0[kw.len() as int] == ' ');
        assert(forall|i: int|
            kw.len() + 1 <= i < t0.len() ==> t0[i] == v[i - kw.len() - 1]);
    }
    lemma_first_eq_none(t0);
    assert(is_space_char(t0[kw.len() as int]));
    assert(forall|i: int| 0 <= i < kw.len() ==> t0[i] == kw[i] && !is_space_char(t0[i]));
    lemma_first_ws_pinned(t0, kw.len() as int);
    assert(t0.take(kw.len() as int) =~= kw);
    crate::text::lemma_trim_of_trimmed(kw);
    let tail = t0.skip(kw.len() as int);
    assert(tail =~= seq![' '] + v);
    assert(is_space_char(tail[0]));
    assert(tail[1] == v[0]);
    assert(!is_space_char(tail[1]));
    crate::text::lemma_trim_start_skip(tail, 1);
    assert(tail.skip(1) =~= v);
    assert(trim_start_spec(v) == v) by {
        assert(!is_space_char(v[0]));
    }
    assert(trim_spec(tail) == trim_end_spec(v));
    assert(trim_end_spec(v) == v);
}

/// No emitted option line reads as a host header.
proof fn lemma_option_line_not_header(kw: Seq<char>, v: Seq<char>)
    requires
        kw.len() > 0,
        forall|i: int|
            0 <= i < kw.len() ==> !is_space_char(#[trigger] kw[i]) && kw[i] != '=' && kw[i]
                != '\n',
        v.len() > 0,
        trim_spec(v) == v,
        forall|i: int| 0 <= i < v.len() ==> v[i] != '\n' && v[i] != '=',
        kw.len() == 4 ==> lower_seq(kw) != seq!['h', 'o', 's', 't'],
    ensures
        !is_header_line(trim_spec(option_line(kw, v))),
{
    lemma_option_line_reparse(kw, v);
    let t = trim_spec(option_line(kw, v));
    assert(t == kw + seq![' '] + v);
    if has_prefix_ci(t, kw_host_sp()) {
        assert(lower_seq(t.take(5))[4] == kw_host_sp()[4]);
        assert(lower_char(t[4]) == ' ');
        if kw.len() > 4 {
            assert(t[4] == kw[4]);
            assert(!is_space_char(kw[4]));
            lemma_lower_space(kw[4]);
            assert(false);
        } else if kw.len() == 4 {
            assert(lower_seq(kw) =~= seq!['h', 'o', 's', 't']) by {
                assert(forall|i: int|
                    0 <= i < 4 ==> lower_seq(t.take(5))[i] == lower_char(#[trigger] t[i]));
                assert(forall|i: int| 0 <= i < 4 ==> t[i] == kw[i]);
                assert(forall|i: int|
                    0 <= i < 4 ==> #[trigger] lower_seq(kw)[i] == lower_char(kw[i]));
            }
            assert(false);
        } else {
            // the separating space sits inside the keyword `host `
            let j = kw.len() as int;
            assert(t[j] == ' ');
            assert(lower_seq(t.take(5))[j] == kw_host_sp()[j]);
            assert(kw_host_sp()[j] == 'o' || kw_host_sp()[j] == 's' || kw_host_sp()[j] == 't');
            assert(lower_char(' ') == ' ');
            assert(false);
        }
    }
}

/// Case folding never turns a visible character into a space.
proof fn lemma_lower_space(c: char)
    requires
        !is_space_char(c),
        c != ' ',
    ensures
        lower_char(c) != ' ',
{
    if 'A' <= c && c <= 'Z' {
        assert(lower_char(c) as int >= 97);
    }
}

/// An emitted header line is one for the parser too, and hands back the
/// same alias.
proof fn lemma_header_line_reparse(a: Seq<char>)
    requires
        wf_alias(a),
    ensures
        ({
            let line = seq!['H', 'o', 's', 't', ' '] + a;
            &&& trim_spec(line) == line
            &&& is_header_line(line)
            &&& trim_spec(strip_comment_spec(line.skip(5))) == a
        }),
{
    let line = seq!['H', 'o', 's', 't', ' '] + a;
    lemma_trimmed_ends(a);
    assert(line[0] == 'H');
    assert(!is_space_char(line[0]));
    assert(line.last() == a.last());
    crate::text::lemma_trim_of_trimmed(line);
    assert(lower_seq(line.take(5)) =~= kw_host_sp()) by {
        assert(line.take(5) =~= seq!['H', 'o', 's', 't', ' ']);
    }
    assert(has_prefix_ci(line, kw_host_sp()));
    if has_prefix_ci(line, kw_hostname()) {
        assert(lower_seq(line.take(8))[4] == kw_hostname()[4]);
        assert(lower_char(line[4]) == 'n');
        assert(line[4] == ' ');
        assert(false);
    }
    assert(line.skip(5) =~= a);
}


// ------------------------------------------------------------------
// Replaying whole blocks through the parser
// ------------------------------------------------------------------
proof fn lemma_parse_single_line(st: ParseState, l: Seq<char>)
    ensures
        parse_lines(st, seq![l]) == parse_line(st, l),
{
    let ls = seq![l];
    assert(ls[0] == l);
    assert(ls.drop_first() =~= Seq::<Seq<char>>::empty());
    assert(parse_lines(parse_line(st, l), ls.drop_first()) == parse_line(st, l));
}

/// One emitted option line, fed back through the parser, performs exactly
/// the dispatch on its key.
proof fn lemma_option_line_replay(st: ParseState, cur: HostView, kw: Seq<char>, v: Seq<char>)
    requires
        st.current == Some(cur),
        kw.len() > 0,
        kw[0] != '#',
        forall|i: int|
            0 <= i < kw.len() ==> !is_space_char(#[trigger] kw[i]) && kw[i] != '=' && kw[i]
                != '\n',
        kw.len() == 4 ==> lower_seq(kw) != seq!['h', 'o', 's', 't'],
        v.len() > 0,
        trim_spec(v) == v,
        strip_comment_spec(v) == v,
        forall|i: int| 0 <= i < v.len() ==> v[i] != '\n' && v[i] != '=',
    ensures
        ({
            let h2 = if lower_seq(kw) == kw_hostname() {
                HostView { hostname: v, ..cur }
            } else if lower_seq(kw) == kw_port() {
                HostView { port: parse_port_spec(v), ..cur }
            } else if lower_seq(kw) == kw_user() {
                HostView { user: v, ..cur }
            } else if lower_seq(kw) == kw_identityfile() {
                HostView { identity_file: v, ..cur }
            } else {
                HostView { extra_options: cur.extra_options.push((kw, v)), ..cur }
            };
            parse_lines(st, seq![option_line(kw, v)]) == (ParseState {
                current: Some(h2),
                ..st
            })
        }),
{
    lemma_parse_single_line(st, option_line(kw, v));
    lemma_option_line_reparse(kw, v);
    lemma_option_line_not_header(kw, v);
    let t = trim_spec(option_line(kw, v));
    assert(t[0] == kw[0]);
    assert(t[0] != '#');
    assert(split_kv_spec(t).0 == kw);
    assert(split_kv_spec(t).1 == v);
    assert(parse_line(st, option_line(kw, v)) =~= (ParseState {
        current: Some(apply_option(cur, t)),
        ..st
    }));
}

/// The emitted extra-option lines append exactly those pairs, in order.
proof fn lemma_extras_replay(st: ParseState, cur: HostView, ps: Seq<(Seq<char>, Seq<char>)>)
    requires
        st.current == Some(cur),
        wf_extras(ps),
    ensures
        parse_lines(st, crate::config::extra_option_lines(ps)) == (ParseState {
            current: Some(HostView { extra_options: cur.extra_options + ps, ..cur }),
            ..st
        }),
    decreases ps.len(),
{
    let ls = crate::config::extra_option_lines(ps);
    if ps.len() == 0 {
        assert(ls =~= Seq::<Seq<char>>::empty());
        assert(cur.extra_options + ps =~= cur.extra_options);
        assert(parse_lines(st, ls) == st);
        assert(st =~= (ParseState {
            current: Some(HostView { extra_options: cur.extra_options + ps, ..cur }),
            ..st
        }));
    } else {
        let p0 = ps[0];
        let rest = ps.drop_first();
        assert(ls =~= seq![option_line(p0.0, p0.1)] + crate::config::extra_option_lines(rest));
        lemma_parse_lines_append(
            st,
            seq![option_line(p0.0, p0.1)],
            crate::config::extra_option_lines(rest),
        );
        assert(wf_extra_key(p0.0));
        lemma_option_line_replay(st, cur, p0.0, p0.1);
        assert((p0.0, p0.1) == p0);
        let cur1 = HostView { extra_options: cur.extra_options.push(p0), ..cur };
        let st1 = ParseState { current: Some(cur1), ..st };
        assert(parse_lines(st, seq![option_line(p0.0, p0.1)]) =~= st1);
        assert(wf_extras(rest)) by {
            assert(forall|i: int| 0 <= i < rest.len() ==> rest[i] == ps[i + 1]);
        }
        lemma_extras_replay(st1, cur1, rest);
        assert(cur1.extra_options + rest =~= cur.extra_options + ps);
        assert(parse_lines(st, ls) =~= (ParseState {
            current: Some(HostView { extra_options: cur.extra_options + ps, ..cur }),
            ..st
        }));
    }
}

/// The header, hostname and user lines of an emitted block, replayed.
#[verifier::rlimit(100)]
proof fn lemma_block_replay_head(st: ParseState, h: HostView)
    requires
        wf_host(h),
    ensures
        ({
            let g0 = seq![seq!['H', 'o', 's', 't', ' '] + h.alias];
            let g1 = if h.hostname.len() > 0 {
                seq![option_line(seq!['H', 'o', 's', 't', 'N', 'a', 'm', 'e'], h.hostname)]
            } else {
                Seq::<Seq<char>>::empty()
            };
            let g2 = if h.user.len() > 0 {
                seq![option_line(seq!['U', 's', 'e', 'r'], h.user)]
            } else {
                Seq::<Seq<char>>::empty()
            };
            let e2 = HostView {
                alias: h.alias,
                hostname: h.hostname,
                port: 22,
                user: h.user,
                identity_file: Seq::<char>::empty(),
                extra_options: Seq::<(Seq<char>, Seq<char>)>::empty(),
            };
            parse_lines(st, g0 + g1 + g2) == (ParseState {
                preamble: st.preamble,
                hosts: flush(st.hosts, st.current),
                current: Some(e2),
            })
        }),
{
    lemma_kw_lowers();
    let g0 = seq![seq!['H', 'o', 's', 't', ' '] + h.alias];
    let g1 = if h.hostname.len() > 0 {
        seq![option_line(seq!['H', 'o', 's', 't', 'N', 'a', 'm', 'e'], h.hostname)]
    } else {
        Seq::<Seq<char>>::empty()
    };
    let g2 = if h.user.len() > 0 {
        seq![option_line(seq!['U', 's', 'e', 'r'], h.user)]
    } else {
        Seq::<Seq<char>>::empty()
    };
    let e0 = HostView { alias: h.alias, ..empty_host_view() };
    let e1 = HostView { hostname: h.hostname, ..e0 };
    let e2 = HostView { user: h.user, ..e1 };

    lemma_header_line_reparse(h.alias);
    lemma_parse_single_line(st, g0[0]);
    let st0 = ParseState {
        preamble: st.preamble,
        hosts: flush(st.hosts, st.current),
        current: Some(e0),
    };
    assert(parse_lines(st, g0) =~= st0) by {
        assert(trim_spec(g0[0]) == g0[0]);
        assert(is_header_line(g0[0]));
        assert(g0[0].skip(5) =~= h.alias);
    }

    let st1 = ParseState { current: Some(e1), ..st0 };
    if h.hostname.len() > 0 {
        lemma_option_line_replay(st0, e0, seq!['H', 'o', 's', 't', 'N', 'a', 'm', 'e'], h.hostname);
        assert(parse_lines(st0, g1) =~= st1);
    } else {
        assert(e1 =~= e0);
        assert(parse_lines(st0, g1) =~= st1);
    }

    let st2 = ParseState { current: Some(e2), ..st1 };
    if h.user.len() > 0 {
        lemma_option_line_replay(st1, e1, seq!['U', 's', 'e', 'r'], h.user);
        assert(parse_lines(st1, g2) =~= st2);
    } else {
        assert(e2 =~= e1);
        assert(parse_lines(st1, g2) =~= st2);
    }

    lemma_parse_lines_append(st, g0, g1 + g2);
    lemma_parse_lines_append(st0, g1, g2);
    assert(g0 + g1 + g2 =~= g0 + (g1 + g2));
    assert(e2 =~= (HostView {
        alias: h.alias,
        hostname: h.hostname,
        port: 22,
        user: h.user,
        identity_file: Seq::<char>::empty(),
        extra_options: Seq::<(Seq<char>, Seq<char>)>::empty(),
    }));
}

/// The port, identity, extra and separator lines of an emitted block,
/// replayed over the partially rebuilt host.
#[verifier::rlimit(100)]
proof fn lemma_block_replay_tail(st2: ParseState, h: HostView)
    requires
        wf_host(h),
        st2.current == Some(
            HostView {
                alias: h.alias,
                hostname: h.hostname,
                port: 22,
                user: h.user,
                identity_file: Seq::<char>::empty(),
                extra_options: Seq::<(Seq<char>, Seq<char>)>::empty(),
            },
        ),
    ensures
        ({
            let g3 = if h.port != 22 {
                seq![option_line(seq!['P', 'o', 'r', 't'], dec_digits(h.port as int))]
            } else {
                Seq::<Seq<char>>::empty()
            };
            let g4 = if h.identity_file.len() > 0 {
                seq![
                    option_line(
                        seq!['I', 'd', 'e', 'n', 't', 'i', 't', 'y', 'F', 'i', 'l', 'e'],
                        h.identity_file,
                    ),
                ]
            } else {
                Seq::<Seq<char>>::empty()
            };
            let g5 = crate::config::extra_option_lines(h.extra_options);
            let g6 = seq![Seq::<char>::empty()];
            parse_lines(st2, g3 + g4 + g5 + g6) == (ParseState { current: Some(h), ..st2 })
        }),
{
    lemma_kw_lowers();
    let g3 = if h.port != 22 {
        seq![option_line(seq!['P', 'o', 'r', 't'], dec_digits(h.port as int))]
    } else {
        Seq::<Seq<char>>::empty()
    };
    let g4 = if h.identity_file.len() > 0 {
        seq![
            option_line(
                seq!['I', 'd', 'e', 'n', 't', 'i', 't', 'y', 'F', 'i', 'l', 'e'],
                h.identity_file,
            ),
        ]
    } else {
        Seq::<Seq<char>>::empty()
    };
    let g5 = crate::config::extra_option_lines(h.extra_options);
    let g6 = seq![Seq::<char>::empty()];
    let e2 = HostView {
        alias: h.alias,
        hostname: h.hostname,
        port: 22,
        user: h.user,
        identity_file: Seq::<char>::empty(),
        extra_options: Seq::<(Seq<char>, Seq<char>)>::empty(),
    };
    let e3 = HostView { port: h.port, ..e2 };
    let e4 = HostView { identity_file: h.identity_file, ..e3 };

    let st3 = ParseState { current: Some(e3), ..st2 };
    if h.port != 22 {
        lemma_port_value_clean(h.port);
        lemma_parse_port_dec_digits(h.port);
        lemma_option_line_replay(st2, e2, seq!['P', 'o', 'r', 't'], dec_digits(h.port as int));
        assert(parse_lines(st2, g3) =~= st3);
    } else {
        assert(e3 =~= e2);
        assert(parse_lines(st2, g3) =~= st3);
    }

    let st4 = ParseState { current: Some(e4), ..st3 };
    if h.identity_file.len() > 0 {
        lemma_option_line_replay(
            st3,
            e3,
            seq!['I', 'd', 'e', 'n', 't', 'i', 't', 'y', 'F', 'i', 'l', 'e'],
            h.identity_file,
        );
        assert(parse_lines(st3, g4) =~= st4);
    } else {
        assert(e4 =~= e3);
        assert(parse_lines(st3, g4) =~= st4);
    }

    lemma_extras_replay(st4, e4, h.extra_options);
    let e5 = HostView { extra_options: e4.extra_options + h.extra_options, ..e4 };
    assert(e5 =~= h);
    let st5 = ParseState { current: Some(h), ..st4 };
    assert(parse_lines(st4, g5) =~= st5);

    lemma_parse_single_line(st5, Seq::<char>::empty());
    assert(parse_lines(st5, g6) =~= st5) by {
        let t = trim_spec(Seq::<char>::empty());
        assert(t =~= Seq::<char>::empty());
        assert(!is_header_line(t));
        assert(apply_option(h, t) == h);
    }

    lemma_parse_lines_append(st2, g3, g4 + g5 + g6);
    lemma_parse_lines_append(st3, g4, g5 + g6);
    lemma_parse_lines_append(st4, g5, g6);
    assert(g3 + g4 + g5 + g6 =~= g3 + (g4 + (g5 + g6)));
    assert(g4 + g5 + g6 =~= g4 + (g5 + g6));
}

/// A whole emitted host block closes the open block and leaves exactly
/// this host open.
#[verifier::rlimit(100)]
proof fn lemma_host_block_replay(st: ParseState, h: HostView)
    requires
        wf_host(h),
    ensures
        parse_lines(st, host_lines(h)) == (ParseState {
            preamble: st.preamble,
            hosts: flush(st.hosts, st.current),
            current: Some(h),
        }),
{
    let g0 = seq![seq!['H', 'o', 's', 't', ' '] + h.alias];
    let g1 = if h.hostname.len() > 0 {
        seq![option_line(seq!['H', 'o', 's', 't', 'N', 'a', 'm', 'e'], h.hostname)]
    } else {
        Seq::<Seq<char>>::empty()
    };
    let g2 = if h.user.len() > 0 {
        seq![option_line(seq!['U', 's', 'e', 'r'], h.user)]
    } else {
        Seq::<Seq<char>>::empty()
    };
    let g3 = if h.port != 22 {
        seq![option_line(seq!['P', 'o', 'r', 't'], dec_digits(h.port as int))]
    } else {
        Seq::<Seq<char>>::empty()
    };
    let g4 = if h.identity_file.len() > 0 {
        seq![
            option_line(
                seq!['I', 'd', 'e', 'n', 't', 'i', 't', 'y', 'F', 'i', 'l', 'e'],
                h.identity_file,
            ),
        ]
    } else {
        Seq::<Seq<char>>::empty()
    };
    let g5 = crate::config::extra_option_lines(h.extra_options);
    let g6 = seq![Seq::<char>::empty()];
    assert(host_lines(h) =~= (g0 + g1 + g2) + (g3 + g4 + g5 + g6));
    lemma_parse_lines_append(st, g0 + g1 + g2, g3 + g4 + g5 + g6);
    lemma_block_replay_head(st, h);
    let e2 = HostView {
        alias: h.alias,
        hostname: h.hostname,
        port: 22,
        user: h.user,
        identity_file: Seq::<char>::empty(),
        extra_options: Seq::<(Seq<char>, Seq<char>)>::empty(),
    };
    let st2 = ParseState {
        preamble: st.preamble,
        hosts: flush(st.hosts, st.current),
        current: Some(e2),
    };
    lemma_block_replay_tail(st2, h);
    assert(parse_lines(st, host_lines(h)) =~= (ParseState {
        preamble: st.preamble,
        hosts: flush(st.hosts, st.current),
        current: Some(h),
    }));
}

// ------------------------------------------------------------------
// Every emitted line is clean, so splitting undoes the joining
// ------------------------------------------------------------------
proof fn lemma_clean_concat(a: Seq<Seq<char>>, b: Seq<Seq<char>>)
    requires
        clean_lines(a),
        clean_lines(b),
    ensures
        clean_lines(a + b),
{
    assert forall|i: int| 0 <= i < (a + b).len() implies clean_line(#[trigger] (a + b)[i]) by {
        if i < a.len() {
            assert((a + b)[i] == a[i]);
        } else {
            assert((a + b)[i] == b[i - a.len()]);
        }
    }
}

proof fn lemma_option_line_clean(kw: Seq<char>, v: Seq<char>)
    requires
        forall|i: int| 0 <= i < kw.len() ==> #[trigger] kw[i] != '\n',
        forall|i: int| 0 <= i < v.len() ==> #[trigger] v[i] != '\n',
        v.len() > 0,
        !is_space_char(v.last()),
    ensures
        clean_line(option_line(kw, v)),
{
    let l = option_line(kw, v);
    assert(l.last() == v.last());
    assert(l.last() != '\r');
    assert forall|i: int| 0 <= i < l.len() implies #[trigger] l[i] != '\n' by {
        if i < 4 {
            assert(l[i] == ' ');
        } else if i < 4 + kw.len() {
            assert(l[i] == kw[i - 4]);
        } else if i == 4 + kw.len() {
            assert(l[i] == ' ');
        } else {
            assert(l[i] == v[i - 5 - kw.len()]);
        }
    }
}

#[verifier::rlimit(100)]
proof fn lemma_host_lines_clean(h: HostView)
    requires
        wf_host(h),
    ensures
        clean_lines(host_lines(h)),
{
    let g0 = seq![seq!['H', 'o', 's', 't', ' '] + h.alias];
    let g1 = if h.hostname.len() > 0 {
        seq![option_line(seq!['H', 'o', 's', 't', 'N', 'a', 'm', 'e'], h.hostname)]
    } else {
        Seq::<Seq<char>>::empty()
    };
    let g2 = if h.user.len() > 0 {
        seq![option_line(seq!['U', 's', 'e', 'r'], h.user)]
    } else {
        Seq::<Seq<char>>::empty()
    };
    let g3 = if h.port != 22 {
        seq![option_line(seq!['P', 'o', 'r', 't'], dec_digits(h.port as int))]
    } else {
        Seq::<Seq<char>>::empty()
    };
    let g4 = if h.identity_file.len() > 0 {
        seq![
            option_line(
                seq!['I', 'd', 'e', 'n', 't', 'i', 't', 'y', 'F', 'i', 'l', 'e'],
                h.identity_file,
            ),
        ]
    } else {
        Seq::<Seq<char>>::empty()
    };
    let g5 = crate::config::extra_option_lines(h.extra_options);
    let g6 = seq![Seq::<char>::empty()];
    assert(host_lines(h) == g0 + g1 + g2 + g3 + g4 + g5 + g6);

    lemma_trimmed_ends(h.alias);
    let header = seq!['H', 'o', 's', 't', ' '] + h.alias;
    assert(clean_line(header)) by {
        assert(header.last() == h.alias.last());
        assert(header.last() != '\r');
        assert(forall|i: int| 0 <= i < 5 ==> #[trigger] header[i] != '\n');
        assert(forall|i: int| 5 <= i < header.len() ==> header[i] == h.alias[i - 5]);
        assert(forall|i: int| 0 <= i < header.len() ==> #[trigger] header[i] != '\n');
    }
    assert(clean_lines(g0));
    if h.hostname.len() > 0 {
        lemma_trimmed_ends(h.hostname);
        lemma_option_line_clean(seq!['H', 'o', 's', 't', 'N', 'a', 'm', 'e'], h.hostname);
    }
    assert(clean_lines(g1));
    if h.user.len() > 0 {
        lemma_trimmed_ends(h.user);
        lemma_option_line_clean(seq!['U', 's', 'e', 'r'], h.user);
    }
    assert(clean_lines(g2));
    if h.port != 22 {
        lemma_port_value_clean(h.port);
        let d = dec_digits(h.port as int);
        assert(!is_space_char(d.last()));
        lemma_option_line_clean(seq!['P', 'o', 'r', 't'], d);
    }
    assert(clean_lines(g3));
    if h.identity_file.len() > 0 {
        lemma_trimmed_ends(h.identity_file);
        lemma_option_line_clean(
            seq!['I', 'd', 'e', 'n', 't', 'i', 't', 'y', 'F', 'i', 'l', 'e'],
            h.identity_file,
        );
    }
    assert(clean_lines(g4));
    assert forall|i: int| 0 <= i < g5.len() implies clean_line(#[trigger] g5[i]) by {
        let p = h.extra_options[i];
        assert(wf_extra_key(p.0) && wf_value(p.1) && p.1.len() > 0);
        lemma_trimmed_ends(p.1);
        lemma_option_line_clean(p.0, p.1);
        assert(g5[i] == option_line(p.0, p.1));
    }
    assert(clean_lines(g5));
    assert(clean_lines(g6)) by {
        assert(clean_line(g6[0]));
    }
    lemma_clean_concat(g0, g1);
    lemma_clean_concat(g0 + g1, g2);
    lemma_clean_concat(g0 + g1 + g2, g3);
    lemma_clean_concat(g0 + g1 + g2 + g3, g4);
    lemma_clean_concat(g0 + g1 + g2 + g3 + g4, g5);
    lemma_clean_concat(g0 + g1 + g2 + g3 + g4 + g5, g6);
}

proof fn lemma_all_host_lines_clean(hs: Seq<HostView>)
    requires
        wf_hosts(hs),
    ensures
        clean_lines(all_host_lines(hs)),
    decreases hs.len(),
{
    if hs.len() == 0 {
        assert(clean_lines(all_host_lines(hs)));
    } else {
        assert(wf_host(hs[0]));
        lemma_host_lines_clean(hs[0]);
        assert(wf_hosts(hs.drop_first())) by {
            assert(forall|i: int| 0 <= i < hs.drop_first().len() ==> hs.drop_first()[i] == hs[i
                + 1]);
        }
        lemma_all_host_lines_clean(hs.drop_first());
        lemma_clean_concat(host_lines(hs[0]), all_host_lines(hs.drop_first()));
    }
}

// ------------------------------------------------------------------
// Replaying the preamble and the block list
// ------------------------------------------------------------------
/// Before any header, the parser accumulates the preamble verbatim.
proof fn lemma_preamble_replay(st: ParseState, p: Seq<char>)
    requires
        st.current is None,
        replayable_preamble(p),
    ensures
        parse_lines(st, spec_lines(p)) == (ParseState { preamble: st.preamble + p, ..st }),
    decreases p.len(),
{
    if p.len() == 0 {
        assert(st.preamble + p =~= st.preamble);
        assert(parse_lines(st, spec_lines(p)) =~= (ParseState {
            preamble: st.preamble + p,
            ..st
        }));
    } else {
        crate::config::lemma_first_nl(p, 0);
        let k = first_nl_from(p, 0);
        assert(k < p.len()) by {
            if k == p.len() {
                assert(p[p.len() - 1] != '\n');
            }
        }
        let l0 = strip_tail_cr(p.take(k));
        assert(l0 == p.take(k)) by {
            if k > 0 {
                assert(p[k] == '\n');
                assert(p[k - 1] != '\r');
                assert(p.take(k).last() == p[k - 1]);
            }
        }
        let rest = spec_lines(p.skip(k + 1));
        assert(spec_lines(p) == seq![l0] + rest);
        assert(spec_lines(p)[0] == l0);
        assert(!is_header_line(trim_spec(l0)));
        let st1 = ParseState { preamble: st.preamble + l0 + seq!['\n'], ..st };
        assert(parse_line(st, l0) == st1);
        let p2 = p.skip(k + 1);
        assert(replayable_preamble(p2)) by {
            if p2.len() > 0 {
                assert(p2.last() == p.last());
            }
            assert(forall|i: int|
                1 <= i < p2.len() && #[trigger] p2[i] == '\n' ==> p2[i - 1] != '\r') by {
                assert(forall|i: int| 0 <= i < p2.len() ==> p2[i] == p[i + k + 1]);
            }
            assert(forall|i: int|
                0 <= i < spec_lines(p2).len() ==> !is_header_line(
                    trim_spec(#[trigger] spec_lines(p2)[i]),
                )) by {
                assert(forall|i: int|
                    0 <= i < spec_lines(p2).len() ==> spec_lines(p2)[i] == spec_lines(p)[i + 1]);
            }
        }
        lemma_preamble_replay(st1, p2);
        assert((seq![l0] + rest).drop_first() =~= rest);
        assert(parse_lines(st, spec_lines(p)) == parse_lines(st1, rest));
        assert(st.preamble + l0 + seq!['\n'] + p2 =~= st.preamble + p) by {
            assert(l0 + seq!['\n'] =~= p.take(k + 1));
            assert(p.take(k + 1) + p.skip(k + 1) =~= p);
        }
    }
}

/// The emitted blocks, replayed in order: all but the last are flushed
/// into the host list, and the last stays open.
proof fn lemma_blocks_replay(st: ParseState, hs: Seq<HostView>)
    requires
        wf_hosts(hs),
    ensures
        hs.len() == 0 ==> parse_lines(st, all_host_lines(hs)) == st,
        hs.len() > 0 ==> parse_lines(st, all_host_lines(hs)) == (ParseState {
            preamble: st.preamble,
            hosts: flush(st.hosts, st.current) + hs.drop_last(),
            current: Some(hs.last()),
        }),
    decreases hs.len(),
{
    if hs.len() > 0 {
        assert(all_host_lines(hs) == host_lines(hs[0]) + all_host_lines(hs.drop_first()));
        lemma_parse_lines_append(st, host_lines(hs[0]), all_host_lines(hs.drop_first()));
        assert(wf_host(hs[0]));
        lemma_host_block_replay(st, hs[0]);
        let st1 = ParseState {
            preamble: st.preamble,
            hosts: flush(st.hosts, st.current),
            current: Some(hs[0]),
        };
        let rest = hs.drop_first();
        assert(wf_hosts(rest)) by {
            assert(forall|i: int| 0 <= i < rest.len() ==> rest[i] == hs[i + 1]);
        }
        lemma_blocks_replay(st1, rest);
        if rest.len() == 0 {
            assert(hs.drop_last() =~= Seq::<HostView>::empty());
            assert(flush(st.hosts, st.current) + hs.drop_last() =~= flush(st.hosts, st.current));
            assert(hs.last() == hs[0]);
        } else {
            assert(hs[0].alias.len() > 0 && hs[0].alias != seq!['*']);
            assert(flush(st1.hosts, Some(hs[0])) == st1.hosts.push(hs[0]));
            assert(st1.hosts.push(hs[0]) + rest.drop_last() =~= flush(st.hosts, st.current)
                + hs.drop_last());
            assert(rest.last() == hs.last());
        }
    }
}

/// Appending the terminating newline a preamble lacks does not change
/// its lines, provided it does not end in a bare carriage return.
proof fn lemma_lines_push_nl(p: Seq<char>)
    requires
        p.len() > 0,
        p.last() != '\n',
        p.last() != '\r',
    ensures
        spec_lines(p + seq!['\n']) == spec_lines(p),
    decreases p.len(),
{
    let q = p + seq!['\n'];
    crate::config::lemma_first_nl(p, 0);
    let k = first_nl_from(p, 0);
    if k < p.len() {
        assert(k < p.len() - 1) by {
            if k == p.len() - 1 {
                assert(p.last() == '\n');
            }
        }
        assert(forall|i: int| 0 <= i < k ==> q[i] == p[i] && q[i] != '\n');
        assert(q[k] == p[k]);
        lemma_first_nl_pinned(q, k);
        assert(q.take(k) =~= p.take(k));
        let p2 = p.skip(k + 1);
        assert(q.skip(k + 1) =~= p2 + seq!['\n']);
        assert(p2.len() > 0);
        assert(p2.last() == p.last());
        lemma_lines_push_nl(p2);
        assert(spec_lines(q) =~= spec_lines(p));
    } else {
        assert(forall|i: int| 0 <= i < p.len() ==> q[i] == p[i] && q[i] != '\n');
        assert(q[p.len() as int] == '\n');
        lemma_first_nl_pinned(q, p.len() as int);
        assert(q.take(p.len() as int) =~= p);
        assert(strip_tail_cr(p) == p);
        assert(q.skip(p.len() as int + 1) =~= Seq::<char>::empty());
        assert(spec_lines(Seq::<char>::empty()) =~= Seq::<Seq<char>>::empty());
        assert(seq![p] + Seq::<Seq<char>>::empty() =~= seq![p]);
        assert(spec_lines(q) =~= seq![p]);
        assert(spec_lines(p) =~= seq![p]);
    }
}

/// A well-formed preamble, newline-terminated where the serializer would
/// terminate it, replays line by line.
proof fn lemma_norm_preamble_replayable(p: Seq<char>)
    requires
        wf_preamble(p),
    ensures
        replayable_preamble(norm_preamble(p)),
        spec_lines(norm_preamble(p)) == spec_lines(p),
{
    let q = norm_preamble(p);
    if p.len() > 0 && p.last() != '\n' {
        assert(q == p.push('\n'));
        assert(q =~= p + seq!['\n']);
        lemma_lines_push_nl(p);
        assert(forall|i: int| 1 <= i < q.len() && #[trigger] q[i] == '\n' ==> q[i - 1] != '\r')
            by {
            assert(forall|i: int| 0 <= i < p.len() ==> q[i] == p[i]);
        }
    }
}

// ------------------------------------------------------------------
// The round-trip law
// ------------------------------------------------------------------
/// Round-trip structural idempotence: parsing the serialized form of a
/// well-formed preamble and host list yields the same hosts, field for
/// field, extra options included, in order, and the preamble up to
/// trailing-newline normalization (exactly the preamble when it already
/// ends in a newline or is empty).
pub proof fn lemma_parse_serialize_round_trip(p: Seq<char>, hs: Seq<HostView>)
    requires
        wf_preamble(p),
        wf_hosts(hs),
    ensures
        spec_parse(spec_serialize(p, hs)).0 == norm_preamble(p),
        spec_parse(spec_serialize(p, hs)).1 == hs,
{
    let np = norm_preamble(p);
    lemma_norm_preamble_replayable(p);
    let body = unlines(all_host_lines(hs));
    let total = spec_serialize(p, hs);
    assert(total == np + body);
    lemma_all_host_lines_clean(hs);
    lemma_lines_unlines(all_host_lines(hs));
    lemma_lines_concat(np, body);
    assert(spec_lines(total) == spec_lines(np) + all_host_lines(hs));
    lemma_parse_lines_append(init_state(), spec_lines(np), all_host_lines(hs));
    lemma_preamble_replay(init_state(), np);
    let st1 = parse_lines(init_state(), spec_lines(np));
    assert(st1.preamble =~= np);
    assert(st1.hosts =~= Seq::<HostView>::empty());
    lemma_blocks_replay(st1, hs);
    let stf = parse_lines(init_state(), spec_lines(total));
    assert(stf == parse_lines(st1, all_host_lines(hs)));
    if hs.len() == 0 {
        assert(stf == st1);
        assert(flush(stf.hosts, stf.current) =~= hs);
    } else {
        assert(stf.hosts =~= hs.drop_last()) by {
            assert(flush(st1.hosts, st1.current) =~= Seq::<HostView>::empty());
            assert(flush(st1.hosts, st1.current) + hs.drop_last() =~= hs.drop_last());
        }
        assert(stf.current == Some(hs.last()));
        assert(wf_host(hs.last()));
        assert(hs.last().alias.len() > 0 && hs.last().alias != seq!['*']);
        assert(flush(stf.hosts, stf.current) == hs.drop_last().push(hs.last()));
        assert(hs.drop_last().push(hs.last()) =~= hs);
    }
}


// ------------------------------------------------------------------
// The port default
// ------------------------------------------------------------------
/// A block's port starts at the default 22, and only a `Port` directive
/// ever moves it: any other option line leaves the port where it was. A
/// `Port` directive whose value does not parse falls back to 22 by the
/// definition of the dispatch itself.
pub proof fn lemma_port_default(h: HostView, t: Seq<char>)
    requires
        lower_seq(split_kv_spec(t).0) != kw_port(),
    ensures
        apply_option(h, t).port == h.port,
        empty_host_view().port == 22,
{
}


/// Serializing is idempotent across a round trip: re-serializing what a
/// serialized text parses back to reproduces that text exactly.
pub proof fn lemma_serialize_idempotent(p: Seq<char>, hs: Seq<HostView>)
    requires
        wf_preamble(p),
        wf_hosts(hs),
    ensures
        ({
            let once = spec_serialize(p, hs);
            let reread = spec_parse(once);
            spec_serialize(reread.0, reread.1) == once
        }),
{
    lemma_parse_serialize_round_trip(p, hs);
    assert(norm_preamble(norm_preamble(p)) == norm_preamble(p));
}


// ------------------------------------------------------------------
// What the parser itself produces
// ------------------------------------------------------------------
/// A value as the parser emits it into a field: trimmed, holding no
/// comment start and no newline. `wf_value` is exactly this plus freedom
/// from `=`.
pub open spec fn produced_value(v: Seq<char>) -> bool {
    &&& trim_spec(v) == v
    &&& strip_comment_spec(v) == v
    &&& forall|i: int| 0 <= i < v.len() ==> v[i] != '\n'
}

/// A key as the parser emits it into the extra options: non-empty, not
/// starting a comment, trimmed, holding no newline. `wf_extra_key` is
/// exactly this plus freedom from whitespace and `=` and from the
/// directives' spellings.
pub open spec fn produced_key(k: Seq<char>) -> bool {
    &&& k.len() > 0
    &&& k[0] != '#'
    &&& trim_spec(k) == k
    &&& forall|i: int| 0 <= i < k.len() ==> k[i] != '\n'
}

/// The shape every parsed host entry has. A parsed entry can fall short
/// of `wf_host` only through the named exclusions: a field value holding
/// `=`, an extra-option key holding whitespace or `=` or spelled like a
/// directive, or an empty extra-option value.
pub open spec fn produced_host(h: HostView) -> bool {
    &&& wf_alias(h.alias)
    &&& produced_value(h.hostname)
    &&& produced_value(h.user)
    &&& produced_value(h.identity_file)
    &&& (forall|i: int|
        0 <= i < h.extra_options.len() ==> produced_key(#[trigger] h.extra_options[i].0)
            && produced_value(h.extra_options[i].1))
}

// --- trimming facts ---
proof fn lemma_trim_start_ends(s: Seq<char>)
    ensures
        trim_start_spec(s).len() > 0 ==> !is_space_char(trim_start_spec(s)[0]),
        trim_start_spec(s).len() > 0 ==> trim_start_spec(s).last() == s.last(),
        trim_start_spec(s).len() <= s.len(),
    decreases s.len(),
{
    if s.len() > 0 && is_space_char(s[0]) {
        lemma_trim_start_ends(s.drop_first());
        if trim_start_spec(s).len() > 0 {
            assert(s.drop_first().last() == s.last());
        }
    }
}

proof fn lemma_trim_end_ends(s: Seq<char>)
    ensures
        trim_end_spec(s).len() > 0 ==> !is_space_char(trim_end_spec(s).last()),
        trim_end_spec(s).len() > 0 ==> trim_end_spec(s)[0] == s[0],
        trim_end_spec(s).len() <= s.len(),
    decreases s.len(),
{
    if s.len() > 0 && is_space_char(s.last()) {
        lemma_trim_end_ends(s.drop_last());
        if trim_end_spec(s).len() > 0 {
            assert(s.drop_last()[0] == s[0]);
        }
    }
}

/// The result of a trim neither starts nor ends with whitespace, so
/// trimming is idempotent.
proof fn lemma_trim_idempotent(s: Seq<char>)
    ensures
        trim_spec(trim_spec(s)) == trim_spec(s),
        trim_spec(s).len() > 0 ==> !is_space_char(trim_spec(s)[0]) && !is_space_char(
            trim_spec(s).last(),
        ),
{
    lemma_trim_start_ends(s);
    lemma_trim_end_ends(trim_start_spec(s));
    crate::text::lemma_trim_of_trimmed(trim_spec(s));
}

/// Trimming introduces no character.
proof fn lemma_trim_no_char(s: Seq<char>, c: char)
    requires
        forall|i: int| 0 <= i < s.len() ==> s[i] != c,
    ensures
        forall|i: int| 0 <= i < trim_spec(s).len() ==> #[trigger] trim_spec(s)[i] != c,
{
    lemma_trim_start_no_char(s, c);
    lemma_trim_end_no_char(trim_start_spec(s), c);
}

proof fn lemma_trim_start_no_char(s: Seq<char>, c: char)
    requires
        forall|i: int| 0 <= i < s.len() ==> s[i] != c,
    ensures
        forall|i: int| 0 <= i < trim_start_spec(s).len() ==> #[trigger] trim_start_spec(s)[i] != c,
    decreases s.len(),
{
    if s.len() > 0 && is_space_char(s[0]) {
        assert(forall|i: int|
            0 <= i < s.drop_first().len() ==> #[trigger] s.drop_first()[i] == s[i + 1]
                && s.drop_first()[i] != c);
        lemma_trim_start_no_char(s.drop_first(), c);
        assert(trim_start_spec(s) == trim_start_spec(s.drop_first()));
    }
}

proof fn lemma_trim_end_no_char(s: Seq<char>, c: char)
    requires
        forall|i: int| 0 <= i < s.len() ==> s[i] != c,
    ensures
        forall|i: int| 0 <= i < trim_end_spec(s).len() ==> #[trigger] trim_end_spec(s)[i] != c,
    decreases s.len(),
{
    if s.len() > 0 && is_space_char(s.last()) {
        assert(forall|i: int|
            0 <= i < s.drop_last().len() ==> #[trigger] s.drop_last()[i] == s[i]
                && s.drop_last()[i] != c);
        lemma_trim_end_no_char(s.drop_last(), c);
        assert(trim_end_spec(s) == trim_end_spec(s.drop_last()));
    }
}

/// A right trim keeps a prefix of its input.
proof fn lemma_trim_end_is_prefix(s: Seq<char>)
    ensures
        trim_end_spec(s) == s.take(trim_end_spec(s).len() as int),
    decreases s.len(),
{
    if s.len() > 0 && is_space_char(s.last()) {
        lemma_trim_end_is_prefix(s.drop_last());
        lemma_trim_end_ends(s.drop_last());
        assert(trim_end_spec(s) == trim_end_spec(s.drop_last()));
        assert(s.drop_last().take(trim_end_spec(s).len() as int) =~= s.take(
            trim_end_spec(s).len() as int,
        ));
    } else {
        assert(s.take(s.len() as int) =~= s);
    }
}

// --- comment-scan facts ---
/// The comment scan of a prefix that stops at or before the first comment
/// start finds nothing.
proof fn lemma_comment_scan_prefix(s: Seq<char>, k: int, i: int, in_quote: bool, qc: char)
    requires
        0 <= i <= k <= s.len(),
        match comment_pos_from(s, i, in_quote, qc) {
            None => true,
            Some(p) => k <= p,
        },
    ensures
        comment_pos_from(s.take(k), i, in_quote, qc) is None,
    decreases k - i,
{
    let t = s.take(k);
    if i < k {
        assert(t[i] == s[i]);
        if in_quote {
            lemma_comment_scan_prefix(s, k, i + 1, s[i] != qc, qc);
        } else if s[i] == '"' || s[i] == '\'' {
            lemma_comment_scan_prefix(s, k, i + 1, true, s[i]);
        } else if s[i] == '#' {
            assert(comment_pos_from(s, i, in_quote, qc) == Some(i));
            assert(false);
        } else {
            lemma_comment_scan_prefix(s, k, i + 1, in_quote, qc);
        }
    }
}

/// Dropping the first character moves the comment scan by one position.
proof fn lemma_comment_scan_shift(s: Seq<char>, i: int, in_quote: bool, qc: char)
    requires
        1 <= i <= s.len(),
    ensures
        (comment_pos_from(s, i, in_quote, qc) is None) == (comment_pos_from(
            s.drop_first(),
            i - 1,
            in_quote,
            qc,
        ) is None),
    decreases s.len() - i,
{
    let t = s.drop_first();
    if i < s.len() {
        assert(t[i - 1] == s[i]);
        if in_quote {
            lemma_comment_scan_shift(s, i + 1, s[i] != qc, qc);
        } else if s[i] == '"' || s[i] == '\'' {
            lemma_comment_scan_shift(s, i + 1, true, s[i]);
        } else if s[i] == '#' {
        } else {
            lemma_comment_scan_shift(s, i + 1, in_quote, qc);
        }
    }
}

/// A string whose scan finds no comment still has none after its leading
/// whitespace is removed.
proof fn lemma_comment_none_trim_start(s: Seq<char>)
    requires
        comment_pos_from(s, 0, false, ' ') is None,
    ensures
        comment_pos_from(trim_start_spec(s), 0, false, ' ') is None,
    decreases s.len(),
{
    if s.len() > 0 && is_space_char(s[0]) {
        assert(s[0] != '#' && s[0] != '"' && s[0] != '\'');
        assert(comment_pos_from(s, 1, false, ' ') is None);
        lemma_comment_scan_shift(s, 1, false, ' ');
        lemma_comment_none_trim_start(s.drop_first());
    }
}

/// A string whose scan finds no comment still has none after a right trim.
proof fn lemma_comment_none_trim_end(s: Seq<char>)
    requires
        comment_pos_from(s, 0, false, ' ') is None,
    ensures
        comment_pos_from(trim_end_spec(s), 0, false, ' ') is None,
{
    lemma_trim_end_is_prefix(s);
    lemma_trim_end_ends(s);
    lemma_comment_scan_prefix(s, trim_end_spec(s).len() as int, 0, false, ' ');
}

/// What the comment stripper returns holds no comment start, so stripping
/// it again changes nothing.
proof fn lemma_strip_output_stripped(s: Seq<char>)
    ensures
        comment_pos_from(strip_comment_spec(s), 0, false, ' ') is None,
        strip_comment_spec(strip_comment_spec(s)) == strip_comment_spec(s),
{
    match comment_pos_from(s, 0, false, ' ') {
        None => {},
        Some(p) => {
            crate::config::lemma_comment_pos_bounds(s, 0, false, ' ');
            lemma_comment_scan_prefix(s, p, 0, false, ' ');
            lemma_comment_none_trim_end(s.take(p));
        },
    }
}


/// A line holds no newline.
pub open spec fn line_no_nl(l: Seq<char>) -> bool {
    forall|j: int| 0 <= j < l.len() ==> l[j] != '\n'
}

/// Splitting a text yields lines free of newlines.
proof fn lemma_lines_no_nl(s: Seq<char>)
    ensures
        forall|i: int| 0 <= i < spec_lines(s).len() ==> line_no_nl(#[trigger] spec_lines(s)[i]),
    decreases s.len(),
{
    if s.len() > 0 {
        crate::config::lemma_first_nl(s, 0);
        let p = first_nl_from(s, 0);
        if 0 <= p < s.len() {
            let l0 = strip_tail_cr(s.take(p));
            assert(line_no_nl(l0)) by {
                assert(forall|j: int| 0 <= j < p ==> s.take(p)[j] == s[j] && s[j] != '\n');
            }
            lemma_lines_no_nl(s.skip(p + 1));
            assert(forall|i: int|
                1 <= i < spec_lines(s).len() ==> spec_lines(s)[i] == spec_lines(s.skip(p + 1))[i
                    - 1]);
        } else {
            assert(line_no_nl(s)) by {
                assert(forall|j: int| 0 <= j < s.len() ==> s[j] != '\n');
            }
        }
    }
}

proof fn lemma_empty_produced_value()
    ensures
        produced_value(Seq::<char>::empty()),
{
    let e = Seq::<char>::empty();
    assert(trim_start_spec(e) == e);
    assert(trim_end_spec(e) == e);
    assert(comment_pos_from(e, 0, false, ' ') is None);
}

/// What the comment stripper makes of a trimmed, newline-free value is a
/// produced value.
proof fn lemma_strip_value_produced(x: Seq<char>)
    requires
        trim_spec(x) == x,
        forall|i: int| 0 <= i < x.len() ==> x[i] != '\n',
    ensures
        produced_value(strip_comment_spec(x)),
{
    lemma_strip_output_stripped(x);
    match comment_pos_from(x, 0, false, ' ') {
        None => {
            lemma_trim_idempotent(x);
        },
        Some(p) => {
            crate::config::lemma_comment_pos_bounds(x, 0, false, ' ');
            let y = x.take(p);
            let v = trim_end_spec(y);
            assert(forall|i: int| 0 <= i < y.len() ==> y[i] == x[i] && y[i] != '\n');
            lemma_trim_end_no_char(y, '\n');
            lemma_trim_end_ends(y);
            lemma_trim_idempotent(x);
            if v.len() > 0 {
                assert(v[0] == y[0]);
                assert(y[0] == x[0]);
                assert(!is_space_char(v[0]));
                assert(!is_space_char(v.last()));
                crate::text::lemma_trim_of_trimmed(v);
            } else {
                lemma_empty_produced_value();
                assert(v =~= Seq::<char>::empty());
            }
        },
    }
}

/// A stripped and trimmed fragment of a newline-free line is a produced
/// value; this is the shape of every parsed alias.
proof fn lemma_alias_produced(z: Seq<char>)
    requires
        forall|i: int| 0 <= i < z.len() ==> z[i] != '\n',
    ensures
        produced_value(trim_spec(strip_comment_spec(z))),
{
    lemma_strip_output_stripped(z);
    let y = strip_comment_spec(z);
    assert(forall|i: int| 0 <= i < y.len() ==> #[trigger] y[i] != '\n') by {
        match comment_pos_from(z, 0, false, ' ') {
            None => {},
            Some(p) => {
                crate::config::lemma_comment_pos_bounds(z, 0, false, ' ');
                assert(forall|i: int|
                    0 <= i < z.take(p).len() ==> z.take(p)[i] == z[i] && z.take(p)[i] != '\n');
                lemma_trim_end_no_char(z.take(p), '\n');
            },
        }
    }
    let a = trim_spec(y);
    lemma_trim_idempotent(y);
    lemma_trim_no_char(y, '\n');
    lemma_comment_none_trim_start(y);
    lemma_comment_none_trim_end(trim_start_spec(y));
}

/// A non-empty key split out of a trimmed line starts with the line's
/// first character.
proof fn lemma_key_head(t: Seq<char>, q: int)
    requires
        trim_spec(t) == t,
        0 <= q <= t.len(),
    ensures
        ({
            let k = trim_spec(t.take(q));
            k.len() > 0 ==> k[0] == t[0]
        }),
{
    let x = t.take(q);
    let k = trim_spec(x);
    if k.len() > 0 {
        assert(q > 0) by {
            if q == 0 {
                assert(x =~= Seq::<char>::empty());
                assert(trim_start_spec(x) == x);
                assert(trim_end_spec(x) == x);
            }
        }
        assert(t.len() > 0);
        lemma_trim_idempotent(t);
        assert(x[0] == t[0]);
        assert(!is_space_char(x[0]));
        assert(trim_start_spec(x) == x);
        lemma_trim_end_ends(x);
    }
}

/// The shape invariant the parser maintains: every completed host is a
/// produced host, and the open block has produced fields (its alias may
/// still be empty or the wildcard, which the flush weeds out).
pub open spec fn produced_fields(h: HostView) -> bool {
    &&& produced_value(h.hostname)
    &&& produced_value(h.user)
    &&& produced_value(h.identity_file)
    &&& (forall|i: int|
        0 <= i < h.extra_options.len() ==> produced_key(#[trigger] h.extra_options[i].0)
            && produced_value(h.extra_options[i].1))
}

pub open spec fn produced_state(st: ParseState) -> bool {
    &&& (forall|i: int| 0 <= i < st.hosts.len() ==> produced_host(#[trigger] st.hosts[i]))
    &&& match st.current {
        None => true,
        Some(h) => produced_fields(h) && produced_value(h.alias),
    }
}

proof fn lemma_flush_produced(st: ParseState)
    requires
        produced_state(st),
    ensures
        forall|i: int|
            0 <= i < flush(st.hosts, st.current).len() ==> produced_host(
                #[trigger] flush(st.hosts, st.current)[i],
            ),
{
    match st.current {
        None => {},
        Some(h) => {
            if h.alias.len() > 0 && h.alias != seq!['*'] {
                assert(wf_alias(h.alias));
                assert(produced_host(h));
                assert(forall|i: int|
                    0 <= i < st.hosts.len() ==> flush(st.hosts, st.current)[i] == st.hosts[i]);
            }
        },
    }
}

#[verifier::rlimit(100)]
proof fn lemma_parse_line_produced(st: ParseState, line: Seq<char>)
    requires
        produced_state(st),
        line_no_nl(line),
    ensures
        produced_state(parse_line(st, line)),
{
    let t = trim_spec(line);
    lemma_trim_no_char(line, '\n');
    lemma_trim_idempotent(line);
    if is_header_line(t) {
        lemma_flush_produced(st);
        assert(forall|i: int| 0 <= i < t.skip(5).len() ==> #[trigger] t.skip(5)[i] != '\n');
        lemma_alias_produced(t.skip(5));
        lemma_empty_produced_value();
        let h2 = HostView {
            alias: trim_spec(strip_comment_spec(t.skip(5))),
            ..empty_host_view()
        };
        assert(produced_value(h2.alias));
        assert(produced_fields(h2));
        assert(produced_state(parse_line(st, line)));
    } else {
        match st.current {
            None => {},
            Some(h) => {
                if t.len() == 0 || t[0] == '#' {
                } else {
                    let kv = split_kv_spec(t);
                    if kv.0.len() == 0 {
                    } else {
                        lemma_split_parts_produced(t);
                        lemma_strip_value_produced(kv.1);
                        let v = strip_comment_spec(kv.1);
                        assert(produced_key(kv.0));
                        let h2 = apply_option(h, t);
                        if lower_seq(kv.0) == kw_hostname() || lower_seq(kv.0) == kw_port()
                            || lower_seq(kv.0) == kw_user() || lower_seq(kv.0)
                            == kw_identityfile() {
                            assert(produced_fields(h2));
                        } else {
                            assert(h2.extra_options == h.extra_options.push((kv.0, v)));
                            assert(forall|i: int|
                                0 <= i < h.extra_options.len()
                                    ==> #[trigger] h2.extra_options[i] == h.extra_options[i]);
                            assert(h2.extra_options.last() == (kv.0, v));
                            assert(produced_fields(h2));
                        }
                        assert(produced_state(parse_line(st, line)));
                    }
                }
            },
        }
    }
}

/// Both parts the key/value splitter yields from a trimmed, newline-free,
/// non-comment line: the key is a produced key, the raw value trimmed and
/// newline-free.
proof fn lemma_split_parts_produced(t: Seq<char>)
    requires
        trim_spec(t) == t,
        line_no_nl(t),
        t.len() > 0,
        t[0] != '#',
        split_kv_spec(t).0.len() > 0,
    ensures
        produced_key(split_kv_spec(t).0),
        trim_spec(split_kv_spec(t).1) == split_kv_spec(t).1,
        forall|i: int| 0 <= i < split_kv_spec(t).1.len() ==> split_kv_spec(t).1[i] != '\n',
{
    crate::config::lemma_first_eq(t, 0);
    let pe = first_eq_from(t, 0);
    if pe < t.len() {
        lemma_split_part_facts(t, pe, pe + 1);
    } else {
        crate::config::lemma_first_ws(t, 0);
        let pw = first_ws_from(t, 0);
        if pw < t.len() {
            lemma_split_part_facts(t, pw, pw);
        }
    }
}

/// The facts shared by both splitting branches: key from `t.take(q)`,
/// value from `t.skip(r)`.
proof fn lemma_split_part_facts(t: Seq<char>, q: int, r: int)
    requires
        trim_spec(t) == t,
        line_no_nl(t),
        t.len() > 0,
        t[0] != '#',
        0 <= q <= t.len(),
        0 <= r <= t.len(),
    ensures
        ({
            let k = trim_spec(t.take(q));
            let v = trim_spec(t.skip(r));
            &&& (k.len() > 0 ==> produced_key(k))
            &&& trim_spec(v) == v
            &&& (forall|i: int| 0 <= i < v.len() ==> v[i] != '\n')
        }),
{
    let x = t.take(q);
    let k = trim_spec(x);
    assert(forall|i: int| 0 <= i < x.len() ==> #[trigger] x[i] == t[i] && x[i] != '\n');
    lemma_trim_no_char(x, '\n');
    lemma_trim_idempotent(x);
    lemma_key_head(t, q);
    let y = t.skip(r);
    assert(forall|i: int| 0 <= i < y.len() ==> #[trigger] y[i] == t[i + r] && y[i] != '\n');
    lemma_trim_no_char(y, '\n');
    lemma_trim_idempotent(y);
}

proof fn lemma_parse_lines_produced(st: ParseState, ls: Seq<Seq<char>>)
    requires
        produced_state(st),
        forall|i: int| 0 <= i < ls.len() ==> line_no_nl(#[trigger] ls[i]),
    ensures
        produced_state(parse_lines(st, ls)),
    decreases ls.len(),
{
    if ls.len() > 0 {
        lemma_parse_line_produced(st, ls[0]);
        assert(forall|i: int| 0 <= i < ls.drop_first().len() ==> ls.drop_first()[i] == ls[i + 1]);
        lemma_parse_lines_produced(parse_line(st, ls[0]), ls.drop_first());
    }
}

/// Everything the parser produces has the produced-host shape: aliases as
/// the round-trip law requires, and every other field trimmed, free of
/// comment starts and of newlines. A parsed entry can therefore fail the
/// round-trip side conditions only through the shapes named at the top of
/// this module.
pub proof fn lemma_parse_output_produced(text: Seq<char>)
    ensures
        forall|i: int|
            0 <= i < spec_parse(text).1.len() ==> produced_host(#[trigger] spec_parse(text).1[i]),
{
    lemma_lines_no_nl(text);
    lemma_parse_lines_produced(init_state(), spec_lines(text));
    let st = parse_lines(init_state(), spec_lines(text));
    lemma_flush_produced(st);
}

} // verus!
