//! The configuration store: a format-preserving parser for the line-oriented
//! `Host`-block syntax of the SSH client configuration, and the serializer
//! that writes a preamble and an ordered host list back out.
//!
//! The whole behaviour of both directions is given by spec functions over
//! character sequences (`spec_parse`, `spec_serialize`); the executable
//! functions are proved to compute exactly those.

use crate::host::{empty_host_view, HostView, SshHost};
use crate::text::{dec_digits, is_space_char, lower_char, lower_seq, parse_port_spec};
use vstd::prelude::*;

verus! {

// ------------------------------------------------------------------
// Splitting text into lines
// ------------------------------------------------------------------
/// The first index `>= i` holding a `\n`, or `s.len()` when there is none.
pub open spec fn first_nl_from(s: Seq<char>, i: int) -> int
    decreases s.len() - i,
    when 0 <= i <= s.len()
{
    if i >= s.len() {
        i
    } else if s[i] == '\n' {
        i
    } else {
        first_nl_from(s, i + 1)
    }
}

pub proof fn lemma_first_nl(s: Seq<char>, i: int)
    requires
        0 <= i <= s.len(),
    ensures
        i <= first_nl_from(s, i) <= s.len(),
        first_nl_from(s, i) < s.len() ==> s[first_nl_from(s, i)] == '\n',
        forall|j: int| i <= j < first_nl_from(s, i) ==> s[j] != '\n',
    decreases s.len() - i,
{
    if i < s.len() && s[i] != '\n' {
        lemma_first_nl(s, i + 1);
    }
}

/// The first index `>= i` holding an `=`, or `s.len()` when there is none.
pub open spec fn first_eq_from(s: Seq<char>, i: int) -> int
    decreases s.len() - i,
    when 0 <= i <= s.len()
{
    if i >= s.len() {
        i
    } else if s[i] == '=' {
        i
    } else {
        first_eq_from(s, i + 1)
    }
}

pub proof fn lemma_first_eq(s: Seq<char>, i: int)
    requires
        0 <= i <= s.len(),
    ensures
        i <= first_eq_from(s, i) <= s.len(),
        first_eq_from(s, i) < s.len() ==> s[first_eq_from(s, i)] == '=',
        forall|j: int| i <= j < first_eq_from(s, i) ==> s[j] != '=',
    decreases s.len() - i,
{
    if i < s.len() && s[i] != '=' {
        lemma_first_eq(s, i + 1);
    }
}

/// The first index `>= i` holding whitespace, or `s.len()` when there is
/// none.
pub open spec fn first_ws_from(s: Seq<char>, i: int) -> int
    decreases s.len() - i,
    when 0 <= i <= s.len()
{
    if i >= s.len() {
        i
    } else if is_space_char(s[i]) {
        i
    } else {
        first_ws_from(s, i + 1)
    }
}

pub proof fn lemma_first_ws(s: Seq<char>, i: int)
    requires
        0 <= i <= s.len(),
    ensures
        i <= first_ws_from(s, i) <= s.len(),
        first_ws_from(s, i) < s.len() ==> is_space_char(s[first_ws_from(s, i)]),
        forall|j: int| i <= j < first_ws_from(s, i) ==> !is_space_char(s[j]),
    decreases s.len() - i,
{
    if i < s.len() && !is_space_char(s[i]) {
        lemma_first_ws(s, i + 1);
    }
}

/// One trailing carriage return removed: what a line ending in `\r\n`
/// keeps of the `\r` once split at the `\n`.
pub open spec fn strip_tail_cr(l: Seq<char>) -> Seq<char> {
    if l.len() > 0 && l.last() == '\r' {
        l.drop_last()
    } else {
        l
    }
}

/// The lines of a text: split at every `\n`, a `\r` directly before a `\n`
/// removed, and a final fragment without a terminator kept as it stands.
pub open spec fn spec_lines(s: Seq<char>) -> Seq<Seq<char>>
    decreases s.len(),
{
    if s.len() == 0 {
        Seq::empty()
    } else {
        let p = first_nl_from(s, 0);
        if 0 <= p < s.len() {
            seq![strip_tail_cr(s.take(p))] + spec_lines(s.skip(p + 1))
        } else {
            seq![s]
        }
    }
}

// ------------------------------------------------------------------
// Quote-aware comment stripping
// ------------------------------------------------------------------
/// The index of the first `#` outside a quoted span, scanning from `i` in
/// the given quote state, or nothing. A span opens at `"` or `'` and closes
/// at the next equal quote character; a `#` inside one is literal text.
pub open spec fn comment_pos_from(s: Seq<char>, i: int, in_quote: bool, qc: char) -> Option<int>
    decreases s.len() - i,
    when 0 <= i <= s.len()
{
    if i >= s.len() {
        None
    } else if in_quote {
        comment_pos_from(s, i + 1, s[i] != qc, qc)
    } else if s[i] == '"' || s[i] == '\'' {
        comment_pos_from(s, i + 1, true, s[i])
    } else if s[i] == '#' {
        Some(i)
    } else {
        comment_pos_from(s, i + 1, false, qc)
    }
}

pub proof fn lemma_comment_pos_bounds(s: Seq<char>, i: int, in_quote: bool, qc: char)
    requires
        0 <= i <= s.len(),
    ensures
        match comment_pos_from(s, i, in_quote, qc) {
            None => true,
            Some(p) => i <= p < s.len() && s[p] == '#',
        },
    decreases s.len() - i,
{
    if i < s.len() {
        if in_quote {
            lemma_comment_pos_bounds(s, i + 1, s[i] != qc, qc);
        } else if s[i] == '"' || s[i] == '\'' {
            lemma_comment_pos_bounds(s, i + 1, true, s[i]);
        } else if s[i] == '#' {
        } else {
            lemma_comment_pos_bounds(s, i + 1, in_quote, qc);
        }
    }
}

/// Everything from the first unquoted `#` on removed, and the remainder
/// right-trimmed; the whole string when no comment starts.
pub open spec fn strip_comment_spec(s: Seq<char>) -> Seq<char> {
    match comment_pos_from(s, 0, false, ' ') {
        Some(p) => crate::text::trim_end_spec(s.take(p)),
        None => s,
    }
}

// ------------------------------------------------------------------
// Key/value splitting and option dispatch
// ------------------------------------------------------------------
/// A line splits at the first `=` when it has one, else at the first
/// whitespace run; both sides are trimmed. A line with neither yields two
/// empty parts.
pub open spec fn split_kv_spec(line: Seq<char>) -> (Seq<char>, Seq<char>) {
    let pe = first_eq_from(line, 0);
    if pe < line.len() {
        (crate::text::trim_spec(line.take(pe)), crate::text::trim_spec(line.skip(pe + 1)))
    } else {
        let pw = first_ws_from(line, 0);
        if pw < line.len() {
            (crate::text::trim_spec(line.take(pw)), crate::text::trim_spec(line.skip(pw)))
        } else {
            (Seq::empty(), Seq::empty())
        }
    }
}

pub open spec fn kw_host_sp() -> Seq<char> {
    seq!['h', 'o', 's', 't', ' ']
}

pub open spec fn kw_hostname() -> Seq<char> {
    seq!['h', 'o', 's', 't', 'n', 'a', 'm', 'e']
}

pub open spec fn kw_port() -> Seq<char> {
    seq!['p', 'o', 'r', 't']
}

pub open spec fn kw_user() -> Seq<char> {
    seq!['u', 's', 'e', 'r']
}

pub open spec fn kw_identityfile() -> Seq<char> {
    seq!['i', 'd', 'e', 'n', 't', 'i', 't', 'y', 'f', 'i', 'l', 'e']
}

/// `kw` (already lower case) is a prefix of `s`, compared case-insensitively.
pub open spec fn has_prefix_ci(s: Seq<char>, kw: Seq<char>) -> bool {
    kw.len() <= s.len() && lower_seq(s.take(kw.len() as int)) == kw
}

/// A trimmed line opens a host block when it begins with `host ` but not
/// with `hostname`, case-insensitively.
pub open spec fn is_header_line(t: Seq<char>) -> bool {
    has_prefix_ci(t, kw_host_sp()) && !has_prefix_ci(t, kw_hostname())
}

/// The effect of one option line (already trimmed) on the open host block:
/// blank lines and comment lines do nothing; a known key sets its field,
/// with an unparsable port falling back to 22; any other key is appended
/// to the extra options, casing and order preserved.
pub open spec fn apply_option(h: HostView, t: Seq<char>) -> HostView {
    if t.len() == 0 || t[0] == '#' {
        h
    } else {
        let kv = split_kv_spec(t);
        if kv.0.len() == 0 {
            h
        } else {
            let v = strip_comment_spec(kv.1);
            if lower_seq(kv.0) == kw_hostname() {
                HostView { hostname: v, ..h }
            } else if lower_seq(kv.0) == kw_port() {
                HostView { port: parse_port_spec(v), ..h }
            } else if lower_seq(kv.0) == kw_user() {
                HostView { user: v, ..h }
            } else if lower_seq(kv.0) == kw_identityfile() {
                HostView { identity_file: v, ..h }
            } else {
                HostView { extra_options: h.extra_options.push((kv.0, v)), ..h }
            }
        }
    }
}

// ------------------------------------------------------------------
// The parse fold
// ------------------------------------------------------------------
/// The parser state after some prefix of the lines: the preamble collected
/// so far, the completed host blocks, and the block still open.
#[verifier::ext_equal]
pub struct ParseState {
    pub preamble: Seq<char>,
    pub hosts: Seq<HostView>,
    pub current: Option<HostView>,
}

pub open spec fn init_state() -> ParseState {
    ParseState { preamble: Seq::empty(), hosts: Seq::empty(), current: None }
}

/// A completed block is kept unless its alias is empty or the catch-all
/// `*`: wildcard blocks are not individually manageable entries.
pub open spec fn flush(hosts: Seq<HostView>, current: Option<HostView>) -> Seq<HostView> {
    match current {
        None => hosts,
        Some(h) => if h.alias.len() > 0 && h.alias != seq!['*'] {
            hosts.push(h)
        } else {
            hosts
        },
    }
}

/// One line of input applied to the parser state. A header line closes the
/// open block and opens a new one named by the rest of the line, comment
/// stripped and trimmed; before the first header every line goes to the
/// preamble verbatim with a `\n` terminator; afterwards lines feed the open
/// block.
pub open spec fn parse_line(st: ParseState, line: Seq<char>) -> ParseState {
    let t = crate::text::trim_spec(line);
    if is_header_line(t) {
        ParseState {
            preamble: st.preamble,
            hosts: flush(st.hosts, st.current),
            current: Some(
                HostView {
                    alias: crate::text::trim_spec(strip_comment_spec(t.skip(5))),
                    ..empty_host_view()
                },
            ),
        }
    } else {
        match st.current {
            None => ParseState { preamble: st.preamble + line + seq!['\n'], ..st },
            Some(h) => ParseState { current: Some(apply_option(h, t)), ..st },
        }
    }
}

pub open spec fn parse_lines(st: ParseState, ls: Seq<Seq<char>>) -> ParseState
    decreases ls.len(),
{
    if ls.len() == 0 {
        st
    } else {
        parse_lines(parse_line(st, ls[0]), ls.drop_first())
    }
}

/// What parsing a whole text yields: the preamble and the ordered host
/// list. Parsing never fails; malformed input degrades to preamble text or
/// to default field values.
pub open spec fn spec_parse(text: Seq<char>) -> (Seq<char>, Seq<HostView>) {
    let st = parse_lines(init_state(), spec_lines(text));
    (st.preamble, flush(st.hosts, st.current))
}

/// The abstract value of a host vector.
pub open spec fn hosts_view(s: Seq<SshHost>) -> Seq<HostView> {
    s.map_values(|h: SshHost| h@)
}

// ------------------------------------------------------------------
// The serializer, as lines joined with `\n`
// ------------------------------------------------------------------
/// An emitted option line: four spaces of indent, the key, one space, the
/// value.
pub open spec fn option_line(kw: Seq<char>, v: Seq<char>) -> Seq<char> {
    seq![' ', ' ', ' ', ' '] + kw + seq![' '] + v
}

pub open spec fn extra_option_lines(ps: Seq<(Seq<char>, Seq<char>)>) -> Seq<Seq<char>> {
    ps.map_values(|p: (Seq<char>, Seq<char>)| option_line(p.0, p.1))
}

/// The lines of one emitted host block: the `Host` line; then `HostName`,
/// `User`, `Port` and `IdentityFile` lines for the fields that differ from
/// their defaults; then the extra options in order; then a blank separator.
pub open spec fn host_lines(h: HostView) -> Seq<Seq<char>> {
    seq![seq!['H', 'o', 's', 't', ' '] + h.alias] + (if h.hostname.len() > 0 {
        seq![option_line(seq!['H', 'o', 's', 't', 'N', 'a', 'm', 'e'], h.hostname)]
    } else {
        Seq::empty()
    }) + (if h.user.len() > 0 {
        seq![option_line(seq!['U', 's', 'e', 'r'], h.user)]
    } else {
        Seq::empty()
    }) + (if h.port != 22 {
        seq![option_line(seq!['P', 'o', 'r', 't'], dec_digits(h.port as int))]
    } else {
        Seq::empty()
    }) + (if h.identity_file.len() > 0 {
        seq![
            option_line(
                seq!['I', 'd', 'e', 'n', 't', 'i', 't', 'y', 'F', 'i', 'l', 'e'],
                h.identity_file,
            ),
        ]
    } else {
        Seq::empty()
    }) + extra_option_lines(h.extra_options) + seq![Seq::<char>::empty()]
}

pub open spec fn all_host_lines(hs: Seq<HostView>) -> Seq<Seq<char>>
    decreases hs.len(),
{
    if hs.len() == 0 {
        Seq::empty()
    } else {
        host_lines(hs[0]) + all_host_lines(hs.drop_first())
    }
}

/// Lines joined back into text, every line `\n`-terminated.
pub open spec fn unlines(ls: Seq<Seq<char>>) -> Seq<char>
    decreases ls.len(),
{
    if ls.len() == 0 {
        Seq::empty()
    } else {
        ls[0] + seq!['\n'] + unlines(ls.drop_first())
    }
}

/// A non-empty preamble is emitted with a terminating newline.
pub open spec fn norm_preamble(p: Seq<char>) -> Seq<char> {
    if p.len() > 0 && p.last() != '\n' {
        p.push('\n')
    } else {
        p
    }
}

/// What serializing yields: the preamble (newline-terminated when
/// non-empty), then every host block in order.
pub open spec fn spec_serialize(p: Seq<char>, hs: Seq<HostView>) -> Seq<char> {
    norm_preamble(p) + unlines(all_host_lines(hs))
}


// ------------------------------------------------------------------
// The executable parser
// ------------------------------------------------------------------
proof fn lemma_kw_literals()
    ensures
        lower_seq("hostname"@) == kw_hostname(),
        lower_seq("port"@) == kw_port(),
        lower_seq("user"@) == kw_user(),
        lower_seq("identityfile"@) == kw_identityfile(),
{
    reveal_strlit("hostname");
    reveal_strlit("port");
    reveal_strlit("user");
    reveal_strlit("identityfile");
    assert(lower_seq("hostname"@) =~= kw_hostname());
    assert(lower_seq("port"@) =~= kw_port());
    assert(lower_seq("user"@) =~= kw_user());
    assert(lower_seq("identityfile"@) =~= kw_identityfile());
}

/// The parser itself: stateless, line-oriented, never failing.
pub struct SshConfigParser;

impl SshConfigParser {
    /// Everything from the first unquoted `#` on removed, and the kept
    /// prefix right-trimmed.
    pub fn strip_inline_comment(s: &str) -> (r: &str)
        ensures
            r@ == strip_comment_spec(s@),
    {
        let len = s.unicode_len();
        let mut i: usize = 0;
        let mut in_quote = false;
        let mut qc: char = ' ';
        while i < len
            invariant
                0 <= i <= len,
                len == s@.len(),
                comment_pos_from(s@, 0, false, ' ') == comment_pos_from(
                    s@,
                    i as int,
                    in_quote,
                    qc,
                ),
            decreases len - i,
        {
            let c = s.get_char(i);
            if in_quote {
                if c == qc {
                    in_quote = false;
                }
            } else if c == '"' || c == '\'' {
                in_quote = true;
                qc = c;
            } else if c == '#' {
                let prefix = s.substring_char(0, i);
                proof {
                    assert(s@.subrange(0, i as int) =~= s@.take(i as int));
                }
                return crate::text::str_trim_end(prefix);
            }
            i = i + 1;
        }
        s
    }

    /// A line split into key and value at the first `=`, else at the first
    /// whitespace, both sides trimmed; two empty strings when it has
    /// neither.
    pub fn split_key_value(line: &str) -> (r: (String, String))
        ensures
            r.0@ == split_kv_spec(line@).0,
            r.1@ == split_kv_spec(line@).1,
    {
        let len = line.unicode_len();
        let mut i: usize = 0;
        while i < len
            invariant
                0 <= i <= len,
                len == line@.len(),
                first_eq_from(line@, 0) == first_eq_from(line@, i as int),
            decreases len - i,
        {
            if line.get_char(i) == '=' {
                let k = crate::text::str_trim(line.substring_char(0, i));
                let v = crate::text::str_trim(line.substring_char(i + 1, len));
                proof {
                    assert(line@.subrange(0, i as int) =~= line@.take(i as int));
                    assert(line@.subrange(i + 1, len as int) =~= line@.skip(i + 1));
                }
                return (k.to_owned(), v.to_owned());
            }
            i = i + 1;
        }
        let mut w: usize = 0;
        while w < len
            invariant
                0 <= w <= len,
                len == line@.len(),
                first_eq_from(line@, 0) == len,
                first_ws_from(line@, 0) == first_ws_from(line@, w as int),
            decreases len - w,
        {
            if crate::text::char_is_space(line.get_char(w)) {
                let k = crate::text::str_trim(line.substring_char(0, w));
                let v = crate::text::str_trim(line.substring_char(w, len));
                proof {
                    assert(line@.subrange(0, w as int) =~= line@.take(w as int));
                    assert(line@.subrange(w as int, len as int) =~= line@.skip(w as int));
                }
                return (k.to_owned(), v.to_owned());
            }
            w = w + 1;
        }
        (String::new(), String::new())
    }

    /// One option line (already trimmed) applied to the open host block.
    pub fn parse_option(host: &mut SshHost, line: &str)
        ensures
            final(host)@ == apply_option(old(host)@, line@),
    {
        let len = line.unicode_len();
        if len == 0 {
            return ;
        }
        if line.get_char(0) == '#' {
            return ;
        }
        let kv = Self::split_key_value(line);
        if kv.0.as_str().is_empty() {
            return ;
        }
        let value = Self::strip_inline_comment(kv.1.as_str()).to_owned();
        proof {
            lemma_kw_literals();
        }
        if crate::text::str_eq_ci(kv.0.as_str(), "hostname") {
            host.hostname = value;
            proof {
                assert(host@ =~= apply_option(old(host)@, line@));
            }
        } else if crate::text::str_eq_ci(kv.0.as_str(), "port") {
            host.port = match crate::text::parse_u16(value.as_str()) {
                Some(p) => p,
                None => 22,
            };
            proof {
                assert(host@ =~= apply_option(old(host)@, line@));
            }
        } else if crate::text::str_eq_ci(kv.0.as_str(), "user") {
            host.user = value;
            proof {
                assert(host@ =~= apply_option(old(host)@, line@));
            }
        } else if crate::text::str_eq_ci(kv.0.as_str(), "identityfile") {
            host.identity_file = value;
            proof {
                assert(host@ =~= apply_option(old(host)@, line@));
            }
        } else {
            host.extra_options.push((kv.0, value));
            proof {
                assert(host@.extra_options =~= apply_option(old(host)@, line@).extra_options);
                assert(host@ =~= apply_option(old(host)@, line@));
            }
        }
    }

    /// A completed block is appended unless its alias is empty or the
    /// catch-all `*`.
    pub fn push_if_named(hosts: &mut Vec<SshHost>, host: SshHost)
        ensures
            hosts_view(final(hosts)@) == flush(hosts_view(old(hosts)@), Some(host@)),
    {
        let alen = host.alias.as_str().unicode_len();
        let star = alen == 1 && host.alias.as_str().get_char(0) == '*';
        proof {
            if star {
                assert(host@.alias =~= seq!['*']);
            }
            if alen >= 1 && !star {
                assert(host@.alias != seq!['*']);
            }
        }
        if alen > 0 && !star {
            hosts.push(host);
            proof {
                assert(hosts_view(hosts@) =~= flush(hosts_view(old(hosts)@), Some(host@)));
            }
        }
    }
}


// ------------------------------------------------------------------
// Whole-text parsing
// ------------------------------------------------------------------
/// The abstract parser state held by the executable parser.
pub open spec fn state_view(preamble: Seq<char>, hosts: Seq<SshHost>, current: Option<
    SshHost,
>) -> ParseState {
    ParseState {
        preamble,
        hosts: hosts_view(hosts),
        current: match current {
            None => None,
            Some(h) => Some(h@),
        },
    }
}

/// The next `\n` at or after `from`, or the length when there is none,
/// reported as an offset so that it matches the line splitter.
fn find_nl(s: &str, from: usize) -> (r: usize)
    requires
        from <= s@.len(),
    ensures
        from <= r <= s@.len(),
        r - from == first_nl_from(s@.skip(from as int), 0),
        r < s@.len() ==> s@[r as int] == '\n',
{
    let len = s.unicode_len();
    let ghost t = s@.skip(from as int);
    let mut j = from;
    while j < len
        invariant
            from <= j <= len,
            len == s@.len(),
            t == s@.skip(from as int),
            first_nl_from(t, 0) == first_nl_from(t, j - from),
        decreases len - j,
    {
        proof {
            assert(t[j - from] == s@[j as int]);
        }
        if s.get_char(j) == '\n' {
            return j;
        }
        j = j + 1;
    }
    len
}

impl SshConfigParser {
    fn is_host_header(t: &str) -> (r: bool)
        ensures
            r == is_header_line(t@),
    {
        let len = t.unicode_len();
        if len < 5 {
            return false;
        }
        let c0 = crate::text::chars_eq_ci(t.get_char(0), 'h');
        let c1 = crate::text::chars_eq_ci(t.get_char(1), 'o');
        let c2 = crate::text::chars_eq_ci(t.get_char(2), 's');
        let c3 = crate::text::chars_eq_ci(t.get_char(3), 't');
        let c4 = crate::text::chars_eq_ci(t.get_char(4), ' ');
        let ok = c0 && c1 && c2 && c3 && c4;
        proof {
            if ok {
                assert(lower_seq(t@.take(5)) =~= kw_host_sp());
                if has_prefix_ci(t@, kw_hostname()) {
                    assert(lower_seq(t@.take(8))[4] == kw_hostname()[4]);
                    assert(lower_char(t@[4]) == 'n');
                    assert(false);
                }
            } else {
                if has_prefix_ci(t@, kw_host_sp()) {
                    assert(forall|m: int|
                        0 <= m < 5 ==> #[trigger] lower_char(t@[m]) == kw_host_sp()[m]) by {
                        assert(forall|m: int|
                            0 <= m < 5 ==> lower_seq(t@.take(5))[m] == #[trigger] lower_char(
                                t@[m],
                            ));
                    }
                    assert(false);
                }
            }
        }
        ok
    }

    fn handle_line(
        preamble: &mut String,
        hosts: &mut Vec<SshHost>,
        current: &mut Option<SshHost>,
        line: &str,
    )
        ensures
            state_view(final(preamble)@, final(hosts)@, *final(current)) == parse_line(
                state_view(old(preamble)@, old(hosts)@, *old(current)),
                line@,
            ),
    {
        let t = crate::text::str_trim(line);
        if Self::is_host_header(t) {
            let taken = current.take();
            match taken {
                Some(h) => Self::push_if_named(hosts, h),
                None => (),
            }
            let tlen = t.unicode_len();
            let rest = t.substring_char(5, tlen);
            proof {
                assert(t@.subrange(5, t@.len() as int) =~= t@.skip(5));
            }
            let alias = crate::text::str_trim(Self::strip_inline_comment(rest)).to_owned();
            let mut h = SshHost::empty();
            h.alias = alias;
            *current = Some(h);
            proof {
                let st0 = state_view(old(preamble)@, old(hosts)@, *old(current));
                assert(state_view(preamble@, hosts@, *current) =~= parse_line(st0, line@));
            }
        } else {
            if current.is_none() {
                preamble.append(line);
                preamble.append("\n");
                proof {
                    reveal_strlit("\n");
                    let st0 = state_view(old(preamble)@, old(hosts)@, *old(current));
                    assert(preamble@ =~= old(preamble)@ + line@ + seq!['\n']);
                    assert(state_view(preamble@, hosts@, *current) =~= parse_line(st0, line@));
                }
            } else {
                let taken = current.take();
                let mut h = taken.unwrap();
                Self::parse_option(&mut h, t);
                *current = Some(h);
                proof {
                    let st0 = state_view(old(preamble)@, old(hosts)@, *old(current));
                    assert(state_view(preamble@, hosts@, *current) =~= parse_line(st0, line@));
                }
            }
        }
    }

    /// Parse a whole configuration text. Everything before the first host
    /// header is the preamble; every completed, named, non-wildcard block
    /// becomes one host entry, in file order.
    pub fn parse(content: &str) -> (r: (String, Vec<SshHost>))
        ensures
            r.0@ == spec_parse(content@).0,
            hosts_view(r.1@) == spec_parse(content@).1,
    {
        let len = content.unicode_len();
        let mut preamble = String::new();
        let mut hosts: Vec<SshHost> = Vec::new();
        let mut current: Option<SshHost> = None;
        let mut pos: usize = 0;
        let ghost target = parse_lines(init_state(), spec_lines(content@));
        proof {
            assert(content@.skip(0) =~= content@);
            assert(state_view(preamble@, hosts@, current) =~= init_state());
        }
        while pos < len
            invariant
                0 <= pos <= len,
                len == content@.len(),
                target == parse_lines(init_state(), spec_lines(content@)),
                parse_lines(
                    state_view(preamble@, hosts@, current),
                    spec_lines(content@.skip(pos as int)),
                ) == target,
            decreases len - pos,
        {
            let ghost t = content@.skip(pos as int);
            let ghost st0 = state_view(preamble@, hosts@, current);
            let r = find_nl(content, pos);
            if r < len {
                let line = if r > pos && content.get_char(r - 1) == '\r' {
                    content.substring_char(pos, r - 1)
                } else {
                    content.substring_char(pos, r)
                };
                proof {
                    let p = r - pos;
                    assert(t.take(p) =~= content@.subrange(pos as int, r as int));
                    if r > pos && content@[r - 1] == '\r' {
                        assert(t.take(p).last() == '\r');
                        assert(line@ =~= strip_tail_cr(t.take(p)));
                    } else {
                        if p > 0 {
                            assert(t.take(p).last() == content@[r - 1]);
                        }
                        assert(line@ =~= strip_tail_cr(t.take(p)));
                    }
                    assert(spec_lines(t) == seq![strip_tail_cr(t.take(p))] + spec_lines(
                        t.skip(p + 1),
                    ));
                }
                Self::handle_line(&mut preamble, &mut hosts, &mut current, line);
                proof {
                    let p = r - pos;
                    let ls = spec_lines(t);
                    assert(ls[0] == line@);
                    assert(ls.drop_first() =~= spec_lines(t.skip(p + 1)));
                    assert(t.skip(p + 1) =~= content@.skip(r + 1));
                    assert(parse_lines(st0, ls) == parse_lines(
                        parse_line(st0, line@),
                        spec_lines(content@.skip(r + 1)),
                    ));
                }
                pos = r + 1;
            } else {
                let line = content.substring_char(pos, len);
                proof {
                    assert(line@ =~= t);
                    assert(first_nl_from(t, 0) == t.len());
                    assert(spec_lines(t) == seq![t]);
                }
                Self::handle_line(&mut preamble, &mut hosts, &mut current, line);
                proof {
                    let ls = seq![t];
                    assert(ls.drop_first() =~= Seq::<Seq<char>>::empty());
                    assert(ls[0] == t);
                    assert(parse_lines(st0, ls) == parse_lines(
                        parse_line(st0, t),
                        ls.drop_first(),
                    ));
                    assert(parse_lines(parse_line(st0, t), ls.drop_first()) == parse_line(
                        st0,
                        t,
                    ));
                    assert(content@.skip(len as int) =~= Seq::<char>::empty());
                }
                pos = len;
            }
        }
        proof {
            assert(content@.skip(len as int) =~= Seq::<char>::empty());
            assert(state_view(preamble@, hosts@, current) == target);
        }
        let taken = current.take();
        match taken {
            Some(h) => Self::push_if_named(&mut hosts, h),
            None => (),
        }
        (preamble, hosts)
    }
}


// ------------------------------------------------------------------
// The executable serializer
// ------------------------------------------------------------------
pub proof fn lemma_unlines_concat(a: Seq<Seq<char>>, b: Seq<Seq<char>>)
    ensures
        unlines(a + b) == unlines(a) + unlines(b),
    decreases a.len(),
{
    if a.len() == 0 {
        assert(a + b =~= b);
        assert(unlines(a) + unlines(b) =~= unlines(b));
    } else {
        assert((a + b).drop_first() =~= a.drop_first() + b);
        lemma_unlines_concat(a.drop_first(), b);
        assert((a + b)[0] == a[0]);
        assert(unlines(a + b) == a[0] + seq!['\n'] + (unlines(a.drop_first()) + unlines(b)));
        assert(a[0] + seq!['\n'] + (unlines(a.drop_first()) + unlines(b)) =~= (a[0] + seq!['\n']
            + unlines(a.drop_first())) + unlines(b));
    }
}

pub proof fn lemma_unlines_single(l: Seq<char>)
    ensures
        unlines(seq![l]) == l + seq!['\n'],
{
    let ls = seq![l];
    assert(ls.drop_first() =~= Seq::<Seq<char>>::empty());
    assert(unlines(ls.drop_first()) == Seq::<char>::empty());
    assert(l + seq!['\n'] + Seq::<char>::empty() =~= l + seq!['\n']);
}

pub proof fn lemma_all_host_lines_snoc(hs: Seq<HostView>, h: HostView)
    ensures
        all_host_lines(hs.push(h)) == all_host_lines(hs) + host_lines(h),
    decreases hs.len(),
{
    if hs.len() == 0 {
        assert(hs.push(h)[0] == h);
        assert(hs.push(h).drop_first() =~= Seq::<HostView>::empty());
        assert(all_host_lines(hs.push(h)) == host_lines(h) + all_host_lines(
            Seq::<HostView>::empty(),
        ));
        assert(host_lines(h) + Seq::<Seq<char>>::empty() =~= host_lines(h));
        assert(all_host_lines(hs) + host_lines(h) =~= host_lines(h));
    } else {
        assert(hs.push(h)[0] == hs[0]);
        assert(hs.push(h).drop_first() =~= hs.drop_first().push(h));
        lemma_all_host_lines_snoc(hs.drop_first(), h);
        assert(all_host_lines(hs.push(h)) == host_lines(hs[0]) + (all_host_lines(hs.drop_first())
            + host_lines(h)));
        assert(host_lines(hs[0]) + (all_host_lines(hs.drop_first()) + host_lines(h)) =~= (
        host_lines(hs[0]) + all_host_lines(hs.drop_first())) + host_lines(h));
    }
}

fn append_option_str_line(out: &mut String, kw: &str, v: &str)
    ensures
        final(out)@ == old(out)@ + option_line(kw@, v@) + seq!['\n'],
{
    out.append("    ");
    out.append(kw);
    out.append(" ");
    out.append(v);
    out.append("\n");
    proof {
        reveal_strlit("    ");
        reveal_strlit(" ");
        reveal_strlit("\n");
        assert(out@ =~= old(out)@ + option_line(kw@, v@) + seq!['\n']);
    }
}

#[verifier::rlimit(100)]
fn append_host_block(out: &mut String, h: &SshHost)
    ensures
        final(out)@ == old(out)@ + unlines(host_lines(h@)),
{
    let ghost g0 = seq![seq!['H', 'o', 's', 't', ' '] + h@.alias];
    let ghost g1 = if h@.hostname.len() > 0 {
        seq![option_line(seq!['H', 'o', 's', 't', 'N', 'a', 'm', 'e'], h@.hostname)]
    } else {
        Seq::<Seq<char>>::empty()
    };
    let ghost g2 = if h@.user.len() > 0 {
        seq![option_line(seq!['U', 's', 'e', 'r'], h@.user)]
    } else {
        Seq::<Seq<char>>::empty()
    };
    let ghost g3 = if h@.port != 22 {
        seq![option_line(seq!['P', 'o', 'r', 't'], dec_digits(h@.port as int))]
    } else {
        Seq::<Seq<char>>::empty()
    };
    let ghost g4 = if h@.identity_file.len() > 0 {
        seq![
            option_line(
                seq!['I', 'd', 'e', 'n', 't', 'i', 't', 'y', 'F', 'i', 'l', 'e'],
                h@.identity_file,
            ),
        ]
    } else {
        Seq::<Seq<char>>::empty()
    };
    let ghost g5 = extra_option_lines(h@.extra_options);
    let ghost g6 = seq![Seq::<char>::empty()];
    out.append("Host ");
    out.append(h.alias.as_str());
    out.append("\n");
    proof {
        reveal_strlit("Host ");
        reveal_strlit("\n");
        lemma_unlines_single(seq!['H', 'o', 's', 't', ' '] + h@.alias);
        assert(out@ =~= old(out)@ + unlines(g0));
    }
    if !h.hostname.as_str().is_empty() {
        append_option_str_line(out, "HostName", h.hostname.as_str());
        proof {
            reveal_strlit("HostName");
            assert("HostName"@ =~= seq!['H', 'o', 's', 't', 'N', 'a', 'm', 'e']);
            lemma_unlines_single(g1[0]);
        }
    }
    proof {
        lemma_unlines_concat(g0, g1);
        assert(out@ =~= old(out)@ + unlines(g0 + g1));
    }
    if !h.user.as_str().is_empty() {
        append_option_str_line(out, "User", h.user.as_str());
        proof {
            reveal_strlit("User");
            assert("User"@ =~= seq!['U', 's', 'e', 'r']);
            lemma_unlines_single(g2[0]);
        }
    }
    proof {
        lemma_unlines_concat(g0 + g1, g2);
        assert(out@ =~= old(out)@ + unlines(g0 + g1 + g2));
    }
    if h.port != 22 {
        out.append("    Port ");
        crate::text::append_u16(out, h.port);
        out.append("\n");
        proof {
            reveal_strlit("    Port ");
            reveal_strlit("\n");
            assert("    Port "@ =~= seq![' ', ' ', ' ', ' '] + seq!['P', 'o', 'r', 't'] + seq![
                ' ',
            ]);
            lemma_unlines_single(g3[0]);
            assert(g3[0] =~= "    Port "@ + dec_digits(h@.port as int));
        }
    }
    proof {
        lemma_unlines_concat(g0 + g1 + g2, g3);
        assert(out@ =~= old(out)@ + unlines(g0 + g1 + g2 + g3));
    }
    if !h.identity_file.as_str().is_empty() {
        append_option_str_line(out, "IdentityFile", h.identity_file.as_str());
        proof {
            reveal_strlit("IdentityFile");
            assert("IdentityFile"@ =~= seq!['I', 'd', 'e', 'n', 't', 'i', 't', 'y', 'F', 'i', 'l', 'e']);
            lemma_unlines_single(g4[0]);
        }
    }
    proof {
        lemma_unlines_concat(g0 + g1 + g2 + g3, g4);
        assert(out@ =~= old(out)@ + unlines(g0 + g1 + g2 + g3 + g4));
    }
    let ghost base5 = out@;
    let mut k: usize = 0;
    while k < h.extra_options.len()
        invariant
            0 <= k <= h.extra_options@.len(),
            out@ == base5 + unlines(extra_option_lines(h@.extra_options.take(k as int))),
        decreases h.extra_options@.len() - k,
    {
        let p = &h.extra_options[k];
        append_option_str_line(out, p.0.as_str(), p.1.as_str());
        proof {
            let pv = h@.extra_options[k as int];
            let pre = extra_option_lines(h@.extra_options.take(k as int));
            let now = extra_option_lines(h@.extra_options.take(k + 1));
            assert(now =~= pre + seq![option_line(pv.0, pv.1)]);
            lemma_unlines_concat(pre, seq![option_line(pv.0, pv.1)]);
            lemma_unlines_single(option_line(pv.0, pv.1));
            assert(out@ =~= base5 + unlines(now));
        }
        k = k + 1;
    }
    proof {
        assert(h@.extra_options.take(h@.extra_options.len() as int) =~= h@.extra_options);
        lemma_unlines_concat(g0 + g1 + g2 + g3 + g4, g5);
        assert(out@ =~= old(out)@ + unlines(g0 + g1 + g2 + g3 + g4 + g5));
    }
    let ghost base6 = out@;
    out.append("\n");
    proof {
        reveal_strlit("\n");
        lemma_unlines_single(Seq::<char>::empty());
        assert(out@ =~= base6 + unlines(g6));
        lemma_unlines_concat(g0 + g1 + g2 + g3 + g4 + g5, g6);
        assert(g0 + g1 + g2 + g3 + g4 + g5 + g6 =~= host_lines(h@));
        assert(out@ =~= old(out)@ + unlines(host_lines(h@)));
    }
}

/// Serialize a preamble and host list back into configuration text: the
/// preamble first (newline-terminated when non-empty), then one block per
/// host in order, each ended by a blank line.
pub fn serialize(preamble: &str, hosts: &Vec<SshHost>) -> (r: String)
    ensures
        r@ == spec_serialize(preamble@, hosts_view(hosts@)),
{
    let mut out = String::new();
    if !preamble.is_empty() {
        out.append(preamble);
        let plen = preamble.unicode_len();
        if preamble.get_char(plen - 1) != '\n' {
            out.push('\n');
        }
    }
    proof {
        assert(out@ =~= norm_preamble(preamble@));
        assert(hosts_view(hosts@).take(0) =~= Seq::<HostView>::empty());
        assert(norm_preamble(preamble@) + Seq::<char>::empty() =~= norm_preamble(preamble@));
    }
    let mut i: usize = 0;
    while i < hosts.len()
        invariant
            0 <= i <= hosts@.len(),
            out@ == norm_preamble(preamble@) + unlines(
                all_host_lines(hosts_view(hosts@).take(i as int)),
            ),
        decreases hosts@.len() - i,
    {
        append_host_block(&mut out, &hosts[i]);
        proof {
            let hv = hosts_view(hosts@);
            assert(hv.take(i + 1) =~= hv.take(i as int).push(hv[i as int]));
            lemma_all_host_lines_snoc(hv.take(i as int), hv[i as int]);
            lemma_unlines_concat(all_host_lines(hv.take(i as int)), host_lines(hv[i as int]));
            assert(hv[i as int] == hosts@[i as int]@);
            assert(out@ =~= norm_preamble(preamble@) + unlines(all_host_lines(hv.take(i + 1))));
        }
        i = i + 1;
    }
    proof {
        assert(hosts_view(hosts@).take(hosts@.len() as int) =~= hosts_view(hosts@));
    }
    out
}

} // verus!
