//! Desktop-entry text: how a `.desktop` file is cut into lines, how a line
//! is trimmed, what the `[Desktop Entry]` section says about an autostart
//! entry, and the in-place `Hidden=` rewrite that toggles one.

use vstd::prelude::*;

use crate::text::{chars_of, push_chars, push_span};

verus! {


/// Unicode `White_Space`, the characters `str::trim` removes.
pub open spec fn is_space(c: char) -> bool {
    let u = c as u32;
    ||| 9 <= u <= 13
    ||| u == 32
    ||| u == 0x85
    ||| u == 0xa0
    ||| u == 0x1680
    ||| 0x2000 <= u <= 0x200a
    ||| u == 0x2028
    ||| u == 0x2029
    ||| u == 0x202f
    ||| u == 0x205f
    ||| u == 0x3000
}

/// A line's content without the `\r` of a `\r\n` ending.
pub open spec fn strip_cr(l: Seq<char>) -> Seq<char> {
    if l.len() > 0 && l.last() == '\r' {
        l.drop_last()
    } else {
        l
    }
}

/// Scanning text left to right: the finished lines, and the unfinished one.
pub open spec fn scan_lines(s: Seq<char>) -> (Seq<Seq<char>>, Seq<char>)
    decreases s.len(),
{
    if s.len() == 0 {
        (seq![], seq![])
    } else {
        let prev = scan_lines(s.drop_last());
        if s.last() == '\n' {
            (prev.0.push(strip_cr(prev.1)), seq![])
        } else {
            (prev.0, prev.1.push(s.last()))
        }
    }
}

/// The lines of a text as `str::lines` yields them: split at `\n`, a `\r`
/// directly before it dropped, no empty line after a final `\n`.
pub open spec fn text_lines(s: Seq<char>) -> Seq<Seq<char>> {
    let p = scan_lines(s);
    if p.1.len() > 0 {
        p.0.push(p.1)
    } else {
        p.0
    }
}

/// Each line followed by `\n`, concatenated.
pub open spec fn join_lines(ls: Seq<Seq<char>>) -> Seq<char>
    decreases ls.len(),
{
    if ls.len() == 0 {
        seq![]
    } else {
        join_lines(ls.drop_last()) + ls.last().push('\n')
    }
}

pub open spec fn trim_start(s: Seq<char>) -> Seq<char>
    decreases s.len(),
{
    if s.len() > 0 && is_space(s[0]) {
        trim_start(s.drop_first())
    } else {
        s
    }
}

pub open spec fn trim_end(s: Seq<char>) -> Seq<char>
    decreases s.len(),
{
    if s.len() > 0 && is_space(s.last()) {
        trim_end(s.drop_last())
    } else {
        s
    }
}

/// `str::trim`: white space removed at both ends.
pub open spec fn trim(s: Seq<char>) -> Seq<char> {
    trim_end(trim_start(s))
}

pub open spec fn has_prefix(s: Seq<char>, p: Seq<char>) -> bool {
    p.len() <= s.len() && s.subrange(0, p.len() as int) == p
}

/// A section header: `[`, anything, `]`.
pub open spec fn is_header(t: Seq<char>) -> bool {
    t.len() > 0 && t[0] == '[' && t.last() == ']'
}

pub open spec fn main_header() -> Seq<char> {
    seq!['[', 'D', 'e', 's', 'k', 't', 'o', 'p', ' ', 'E', 'n', 't', 'r', 'y', ']']
}

pub open spec fn name_key() -> Seq<char> {
    seq!['N', 'a', 'm', 'e', '=']
}

pub open spec fn exec_key() -> Seq<char> {
    seq!['E', 'x', 'e', 'c', '=']
}

pub open spec fn hidden_key() -> Seq<char> {
    seq!['H', 'i', 'd', 'd', 'e', 'n', '=']
}

pub open spec fn true_word() -> Seq<char> {
    seq!['t', 'r', 'u', 'e']
}

/// The line the rewrite writes for a hidden state.
pub open spec fn hidden_line(hidden: bool) -> Seq<char> {
    if hidden {
        seq!['H', 'i', 'd', 'd', 'e', 'n', '=', 't', 'r', 'u', 'e']
    } else {
        seq!['H', 'i', 'd', 'd', 'e', 'n', '=', 'f', 'a', 'l', 's', 'e']
    }
}

pub open spec fn lower_char(c: char) -> char {
    if 'A' <= c <= 'Z' {
        ((c as u32) + 32) as char
    } else {
        c
    }
}

/// Equality ignoring ASCII case.
pub open spec fn eq_ignore_case(a: Seq<char>, b: Seq<char>) -> bool {
    a.len() == b.len() && forall|i: int| 0 <= i < a.len() ==> #[trigger] lower_char(a[i])
        == lower_char(b[i])
}

/// What has been read of an entry so far.
pub struct EntryScan {
    pub name: Seq<char>,
    pub command: Seq<char>,
    pub hidden: bool,
    pub in_main: bool,
}

/// Reading one line of a desktop file. Only the `[Desktop Entry]` section
/// counts; comments and blank lines are skipped; the last value of a key wins.
pub open spec fn scan_step(st: EntryScan, line: Seq<char>) -> EntryScan {
    let t = trim(line);
    if t.len() == 0 || t[0] == '#' {
        st
    } else if is_header(t) {
        EntryScan { in_main: t == main_header(), ..st }
    } else if !st.in_main {
        st
    } else if has_prefix(t, name_key()) {
        EntryScan { name: t.skip(5), ..st }
    } else if has_prefix(t, exec_key()) {
        EntryScan { command: t.skip(5), ..st }
    } else if has_prefix(t, hidden_key()) {
        EntryScan { hidden: eq_ignore_case(t.skip(7), true_word()), ..st }
    } else {
        st
    }
}

pub open spec fn scan_from(st: EntryScan, lines: Seq<Seq<char>>) -> EntryScan
    decreases lines.len(),
{
    if lines.len() == 0 {
        st
    } else {
        scan_step(scan_from(st, lines.drop_last()), lines.last())
    }
}

pub open spec fn scan_start(default_name: Seq<char>) -> EntryScan {
    EntryScan { name: default_name, command: seq![], hidden: false, in_main: false }
}

/// What a desktop file says: its name (`default_name` when no `Name=`),
/// its command, and whether it is hidden.
pub open spec fn scan_entry(raw: Seq<char>, default_name: Seq<char>) -> EntryScan {
    scan_from(scan_start(default_name), text_lines(raw))
}

/// The rewrite's progress: lines written, inside the main section, and
/// whether the `Hidden=` line has been written.
pub struct RewriteScan {
    pub out: Seq<Seq<char>>,
    pub in_main: bool,
    pub wrote: bool,
}

/// Rewriting one line: a `Hidden=` line of the main section becomes the new
/// one; leaving the main section without one writes it before the next header.
pub open spec fn rewrite_step(st: RewriteScan, line: Seq<char>, hidden: bool) -> RewriteScan {
    let t = trim(line);
    if is_header(t) {
        let out = if st.in_main && !st.wrote {
            st.out.push(hidden_line(hidden))
        } else {
            st.out
        };
        RewriteScan { out: out.push(line), in_main: t == main_header(), wrote: st.wrote || st.in_main }
    } else if st.in_main && has_prefix(t, hidden_key()) {
        RewriteScan { out: st.out.push(hidden_line(hidden)), wrote: true, ..st }
    } else {
        RewriteScan { out: st.out.push(line), ..st }
    }
}

pub open spec fn rewrite_from(st: RewriteScan, lines: Seq<Seq<char>>, hidden: bool) -> RewriteScan
    decreases lines.len(),
{
    if lines.len() == 0 {
        st
    } else {
        rewrite_step(rewrite_from(st, lines.drop_last(), hidden), lines.last(), hidden)
    }
}

pub open spec fn rewrite_start() -> RewriteScan {
    RewriteScan { out: seq![], in_main: false, wrote: false }
}

/// The lines of the rewritten file; a main section still open at the end
/// gets the `Hidden=` line appended.
pub open spec fn rewritten_lines(raw: Seq<char>, hidden: bool) -> Seq<Seq<char>> {
    let st = rewrite_from(rewrite_start(), text_lines(raw), hidden);
    if st.in_main && !st.wrote {
        st.out.push(hidden_line(hidden))
    } else {
        st.out
    }
}

/// The rewritten file: every line followed by `\n`.
pub open spec fn rewrite_hidden_text(raw: Seq<char>, hidden: bool) -> Seq<char> {
    join_lines(rewritten_lines(raw, hidden))
}

/// Some line of the text is the main section's header.
pub open spec fn has_main_section(raw: Seq<char>) -> bool {
    exists|i: int|
        0 <= i < text_lines(raw).len() && #[trigger] trim(text_lines(raw)[i]) == main_header()
}

pub proof fn lemma_join_push(ls: Seq<Seq<char>>, l: Seq<char>)
    ensures
        join_lines(ls.push(l)) == join_lines(ls) + l.push('\n'),
{
    assert(ls.push(l).drop_last() =~= ls);
}

// ------------------------------------------------------------ laws ----

pub open spec fn no_newline(l: Seq<char>) -> bool {
    forall|k: int| 0 <= k < l.len() ==> #[trigger] l[k] != '\n'
}

pub open spec fn all_no_newline(ls: Seq<Seq<char>>) -> bool {
    forall|i: int| 0 <= i < ls.len() ==> no_newline(#[trigger] ls[i])
}

/// Some line among `lines` trims to the main section's header.
pub open spec fn seen_main(lines: Seq<Seq<char>>) -> bool
    decreases lines.len(),
{
    lines.len() > 0 && (seen_main(lines.drop_last()) || trim(lines.last()) == main_header())
}

proof fn lemma_scan_lines_no_newline(s: Seq<char>)
    ensures
        all_no_newline(scan_lines(s).0),
        no_newline(scan_lines(s).1),
    decreases s.len(),
{
    if s.len() > 0 {
        lemma_scan_lines_no_newline(s.drop_last());
        let prev = scan_lines(s.drop_last());
        if s.last() == '\n' {
            assert(no_newline(strip_cr(prev.1)));
            assert(scan_lines(s).0 =~= prev.0.push(strip_cr(prev.1)));
        } else {
            assert(scan_lines(s).1 =~= prev.1.push(s.last()));
        }
    }
}

proof fn lemma_text_lines_no_newline(s: Seq<char>)
    ensures
        all_no_newline(text_lines(s)),
{
    lemma_scan_lines_no_newline(s);
}

proof fn lemma_scan_lines_append_plain(x: Seq<char>, l: Seq<char>)
    requires
        no_newline(l),
    ensures
        scan_lines(x + l) == (scan_lines(x).0, scan_lines(x).1 + l),
    decreases l.len(),
{
    if l.len() == 0 {
        assert(x + l =~= x);
        assert(scan_lines(x).1 + l =~= scan_lines(x).1);
    } else {
        let l2 = l.drop_last();
        assert((x + l).drop_last() =~= x + l2);
        assert((x + l).last() == l.last());
        lemma_scan_lines_append_plain(x, l2);
        assert(scan_lines(x).1 + l2 + seq![l.last()] =~= scan_lines(x).1 + l);
        assert((scan_lines(x).1 + l2).push(l.last()) =~= scan_lines(x).1 + l);
    }
}

proof fn lemma_scan_join(ls: Seq<Seq<char>>)
    requires
        all_no_newline(ls),
    ensures
        scan_lines(join_lines(ls)).0 == ls.map_values(|l: Seq<char>| strip_cr(l)),
        scan_lines(join_lines(ls)).1 == Seq::<char>::empty(),
    decreases ls.len(),
{
    if ls.len() == 0 {
        assert(ls.map_values(|l: Seq<char>| strip_cr(l)) =~= Seq::<Seq<char>>::empty());
    } else {
        let front = ls.drop_last();
        let l = ls.last();
        assert forall|i: int| 0 <= i < front.len() implies no_newline(#[trigger] front[i]) by {
            assert(no_newline(ls[i]));
        }
        lemma_scan_join(front);
        assert(no_newline(ls[ls.len() - 1]));
        let j = join_lines(front) + l;
        lemma_scan_lines_append_plain(join_lines(front), l);
        assert(join_lines(ls) == join_lines(front) + l.push('\n'));
        assert(join_lines(ls) =~= j.push('\n'));
        assert(j.push('\n').drop_last() =~= j);
        assert(Seq::<char>::empty() + l =~= l);
        assert(ls.map_values(|l: Seq<char>| strip_cr(l)) =~= front.map_values(
            |l: Seq<char>| strip_cr(l),
        ).push(strip_cr(l)));
    }
}

proof fn lemma_trim_start_drop_space(s: Seq<char>)
    requires
        s.len() > 0,
        is_space(s.last()),
    ensures
        trim_start(s).len() == 0 ==> trim_start(s.drop_last()).len() == 0,
        trim_start(s).len() > 0 ==> trim_start(s.drop_last()) == trim_start(s).drop_last()
            && trim_start(s).last() == s.last(),
    decreases s.len(),
{
    if s.len() == 1 {
        assert(s[0] == s.last());
        assert(trim_start(s) == trim_start(s.drop_first()));
        assert(s.drop_first().len() == 0);
        assert(s.drop_last().len() == 0);
    } else if is_space(s[0]) {
        let t = s.drop_first();
        assert(t.last() == s.last());
        lemma_trim_start_drop_space(t);
        assert(trim_start(s) == trim_start(t));
        assert(s.drop_last()[0] == s[0]);
        assert(trim_start(s.drop_last()) == trim_start(s.drop_last().drop_first()));
        assert(s.drop_last().drop_first() =~= t.drop_last());
    } else {
        assert(trim_start(s) == s);
        assert(s.drop_last()[0] == s[0]);
        assert(trim_start(s.drop_last()) == s.drop_last());
    }
}

proof fn lemma_trim_drop_space(s: Seq<char>)
    requires
        s.len() > 0,
        is_space(s.last()),
    ensures
        trim(s) == trim(s.drop_last()),
{
    lemma_trim_start_drop_space(s);
    let x = trim_start(s);
    if x.len() == 0 {
        assert(trim_start(s.drop_last()) =~= Seq::<char>::empty());
        assert(x =~= Seq::<char>::empty());
    }
}

proof fn lemma_trim_strip_cr(l: Seq<char>)
    ensures
        trim(strip_cr(l)) == trim(l),
{
    if l.len() > 0 && l.last() == '\r' {
        assert(is_space('\r'));
        lemma_trim_drop_space(l);
    }
}

proof fn lemma_scan_same_trim(st: EntryScan, a: Seq<Seq<char>>, b: Seq<Seq<char>>)
    requires
        a.len() == b.len(),
        forall|i: int| 0 <= i < a.len() ==> #[trigger] trim(a[i]) == trim(b[i]),
    ensures
        scan_from(st, a) == scan_from(st, b),
    decreases a.len(),
{
    if a.len() > 0 {
        let a2 = a.drop_last();
        let b2 = b.drop_last();
        assert forall|i: int| 0 <= i < a2.len() implies #[trigger] trim(a2[i]) == trim(b2[i]) by {
            assert(trim(a[i]) == trim(b[i]));
        }
        lemma_scan_same_trim(st, a2, b2);
        assert(trim(a[a.len() - 1]) == trim(b[b.len() - 1]));
    }
}

proof fn lemma_scan_from_append(st: EntryScan, x: Seq<Seq<char>>, y: Seq<Seq<char>>)
    ensures
        scan_from(st, x + y) == scan_from(scan_from(st, x), y),
    decreases y.len(),
{
    if y.len() == 0 {
        assert(x + y =~= x);
    } else {
        assert((x + y).drop_last() =~= x + y.drop_last());
        assert((x + y).last() == y.last());
        lemma_scan_from_append(st, x, y.drop_last());
    }
}

proof fn lemma_hidden_line_facts(hidden: bool)
    ensures
        trim(hidden_line(hidden)) == hidden_line(hidden),
        !is_header(hidden_line(hidden)),
        has_prefix(hidden_line(hidden), hidden_key()),
        !has_prefix(hidden_line(hidden), name_key()),
        !has_prefix(hidden_line(hidden), exec_key()),
        eq_ignore_case(hidden_line(hidden).skip(7), true_word()) == hidden,
        no_newline(hidden_line(hidden)),
        no_cr(hidden_line(hidden)),
{
    let h = hidden_line(hidden);
    assert(!is_space(h[0]));
    assert(trim_start(h) == h);
    assert(!is_space(h.last()));
    assert(trim_end(h) == h);
    assert(h.subrange(0, 7) =~= hidden_key());
    assert(h.subrange(0, 5)[0] != name_key()[0]);
    assert(h.subrange(0, 5)[0] != exec_key()[0]);
    if hidden {
        assert(h.skip(7) =~= true_word());
    } else {
        assert(h.skip(7).len() != true_word().len());
    }
}

/// Scanning a rewritten prefix agrees with scanning the original prefix on
/// name, command and section, and once the `Hidden=` line has been written
/// the scan sees the requested value.
proof fn lemma_rewrite_tracks_scan(lines: Seq<Seq<char>>, hidden: bool, default_name: Seq<char>)
    ensures
        ({
            let r = rewrite_from(rewrite_start(), lines, hidden);
            let s = scan_from(scan_start(default_name), r.out);
            let t = scan_from(scan_start(default_name), lines);
            &&& s.name == t.name
            &&& s.command == t.command
            &&& s.in_main == r.in_main
            &&& t.in_main == r.in_main
            &&& r.wrote ==> s.hidden == hidden
            &&& seen_main(lines) ==> r.wrote || r.in_main
        }),
    decreases lines.len(),
{
    if lines.len() > 0 {
        let start = scan_start(default_name);
        let front = lines.drop_last();
        let line = lines.last();
        lemma_rewrite_tracks_scan(front, hidden, default_name);
        let r0 = rewrite_from(rewrite_start(), front, hidden);
        let s0 = scan_from(start, r0.out);
        let t0 = scan_from(start, front);
        let r1 = rewrite_step(r0, line, hidden);
        assert(rewrite_from(rewrite_start(), lines, hidden) == r1);
        assert(scan_from(start, lines) == scan_step(t0, line));
        assert(seen_main(lines) == (seen_main(front) || trim(line) == main_header()));
        let t = trim(line);
        lemma_hidden_line_facts(hidden);
        let hl = hidden_line(hidden);
        if is_header(t) {
            let o1 = if r0.in_main && !r0.wrote {
                r0.out.push(hl)
            } else {
                r0.out
            };
            let s1 = scan_from(start, o1);
            if r0.in_main && !r0.wrote {
                assert(r0.out.push(hl).drop_last() =~= r0.out);
                assert(s1 == scan_step(s0, hl));
                assert(s1.hidden == hidden);
                assert(s1.name == s0.name && s1.command == s0.command && s1.in_main == s0.in_main);
            }
            assert(r1.out == o1.push(line));
            assert(o1.push(line).drop_last() =~= o1);
            assert(scan_from(start, r1.out) == scan_step(s1, line));
        } else if r0.in_main && has_prefix(t, hidden_key()) {
            assert(r1.out == r0.out.push(hl));
            assert(r0.out.push(hl).drop_last() =~= r0.out);
            assert(scan_from(start, r1.out) == scan_step(s0, hl));
            assert(t.subrange(0, 7)[0] == 'H');
            assert(t[0] == 'H');
            assert(t.subrange(0, 5)[0] == 'H' || t.len() < 5);
            assert(!has_prefix(t, name_key()));
            assert(!has_prefix(t, exec_key()));
        } else {
            assert(r1.out == r0.out.push(line));
            assert(r0.out.push(line).drop_last() =~= r0.out);
            assert(scan_from(start, r1.out) == scan_step(s0, line));
        }
    }
}

proof fn lemma_rewrite_lines_no_newline(lines: Seq<Seq<char>>, hidden: bool)
    requires
        all_no_newline(lines),
    ensures
        all_no_newline(rewrite_from(rewrite_start(), lines, hidden).out),
    decreases lines.len(),
{
    if lines.len() > 0 {
        let front = lines.drop_last();
        assert forall|i: int| 0 <= i < front.len() implies no_newline(#[trigger] front[i]) by {
            assert(no_newline(lines[i]));
        }
        lemma_rewrite_lines_no_newline(front, hidden);
        lemma_hidden_line_facts(hidden);
        assert(no_newline(lines[lines.len() - 1]));
    }
}

proof fn lemma_seen_main_exists(lines: Seq<Seq<char>>, i: int)
    requires
        0 <= i < lines.len(),
        trim(lines[i]) == main_header(),
    ensures
        seen_main(lines),
    decreases lines.len(),
{
    if i < lines.len() - 1 {
        assert(lines.drop_last()[i] == lines[i]);
        lemma_seen_main_exists(lines.drop_last(), i);
    }
}

/// Read after write: in a desktop file with a `[Desktop Entry]` section,
/// rewriting `Hidden=` to `hidden` and reading the file again gives back
/// `hidden`, with the name and the command unchanged.
pub proof fn lemma_rewrite_then_scan(raw: Seq<char>, hidden: bool, default_name: Seq<char>)
    requires
        has_main_section(raw),
    ensures
        scan_entry(rewrite_hidden_text(raw, hidden), default_name).hidden == hidden,
        scan_entry(rewrite_hidden_text(raw, hidden), default_name).name == scan_entry(
            raw,
            default_name,
        ).name,
        scan_entry(rewrite_hidden_text(raw, hidden), default_name).command == scan_entry(
            raw,
            default_name,
        ).command,
{
    let lines = text_lines(raw);
    let i = choose|i: int| 0 <= i < lines.len() && #[trigger] trim(lines[i]) == main_header();
    lemma_seen_main_exists(lines, i);
    lemma_rewrite_tracks_scan(lines, hidden, default_name);
    lemma_text_lines_no_newline(raw);
    lemma_rewrite_lines_no_newline(lines, hidden);
    lemma_hidden_line_facts(hidden);
    let r = rewrite_from(rewrite_start(), lines, hidden);
    let out = rewritten_lines(raw, hidden);
    let start = scan_start(default_name);
    let s = scan_from(start, r.out);
    if r.in_main && !r.wrote {
        assert(out == r.out.push(hidden_line(hidden)));
        assert(r.out.push(hidden_line(hidden)).drop_last() =~= r.out);
        assert(scan_from(start, out) == scan_step(s, hidden_line(hidden)));
        assert(scan_from(start, out).hidden == hidden);
        assert forall|k: int| 0 <= k < out.len() implies no_newline(#[trigger] out[k]) by {
            if k < r.out.len() {
                assert(out[k] == r.out[k]);
            }
        }
    }
    assert(all_no_newline(out));
    lemma_scan_join(out);
    let stripped = out.map_values(|l: Seq<char>| strip_cr(l));
    assert(text_lines(rewrite_hidden_text(raw, hidden)) == stripped);
    assert forall|k: int| 0 <= k < stripped.len() implies #[trigger] trim(stripped[k]) == trim(
        out[k],
    ) by {
        lemma_trim_strip_cr(out[k]);
    }
    lemma_scan_same_trim(start, stripped, out);
    assert(scan_entry(rewrite_hidden_text(raw, hidden), default_name) == scan_from(start, out));
    assert(scan_entry(raw, default_name) == scan_from(start, lines));
}

pub open spec fn no_cr(l: Seq<char>) -> bool {
    forall|k: int| 0 <= k < l.len() ==> #[trigger] l[k] != '\r'
}

pub open spec fn all_no_cr(ls: Seq<Seq<char>>) -> bool {
    forall|i: int| 0 <= i < ls.len() ==> no_cr(#[trigger] ls[i])
}

proof fn lemma_scan_lines_no_cr(s: Seq<char>)
    requires
        no_cr(s),
    ensures
        all_no_cr(scan_lines(s).0),
        no_cr(scan_lines(s).1),
    decreases s.len(),
{
    if s.len() > 0 {
        assert(no_cr(s.drop_last()));
        lemma_scan_lines_no_cr(s.drop_last());
        let prev = scan_lines(s.drop_last());
        if s.last() == '\n' {
            assert(no_cr(strip_cr(prev.1)));
            assert(scan_lines(s).0 =~= prev.0.push(strip_cr(prev.1)));
        } else {
            assert(s.last() == s[s.len() - 1]);
            assert(scan_lines(s).1 =~= prev.1.push(s.last()));
        }
    }
}

proof fn lemma_rewrite_lines_no_cr(lines: Seq<Seq<char>>, hidden: bool)
    requires
        all_no_cr(lines),
    ensures
        all_no_cr(rewrite_from(rewrite_start(), lines, hidden).out),
    decreases lines.len(),
{
    if lines.len() > 0 {
        let front = lines.drop_last();
        assert forall|i: int| 0 <= i < front.len() implies no_cr(#[trigger] front[i]) by {
            assert(no_cr(lines[i]));
        }
        lemma_rewrite_lines_no_cr(front, hidden);
        lemma_hidden_line_facts(hidden);
        assert(no_cr(lines[lines.len() - 1]));
    }
}

/// Rewriting the output of a rewrite line by line keeps step with rewriting
/// the original lines: same lines out, same section and `wrote` state.
proof fn lemma_rewrite_twice_steps(lines: Seq<Seq<char>>, h1: bool, h2: bool)
    ensures
        ({
            let r1 = rewrite_from(rewrite_start(), lines, h1);
            let r2 = rewrite_from(rewrite_start(), lines, h2);
            let r12 = rewrite_from(rewrite_start(), r1.out, h2);
            &&& r12.out == r2.out
            &&& r12.in_main == r2.in_main
            &&& r12.wrote == r2.wrote
            &&& r1.in_main == r2.in_main
            &&& r1.wrote == r2.wrote
        }),
    decreases lines.len(),
{
    if lines.len() > 0 {
        let front = lines.drop_last();
        let line = lines.last();
        lemma_rewrite_twice_steps(front, h1, h2);
        lemma_hidden_line_facts(h1);
        lemma_hidden_line_facts(h2);
        let st = rewrite_start();
        let a1 = rewrite_from(st, front, h1);
        let a2 = rewrite_from(st, front, h2);
        let a12 = rewrite_from(st, a1.out, h2);
        let r1 = rewrite_step(a1, line, h1);
        let r2 = rewrite_step(a2, line, h2);
        assert(rewrite_from(st, lines, h1) == r1);
        assert(rewrite_from(st, lines, h2) == r2);
        let hl1 = hidden_line(h1);
        let hl2 = hidden_line(h2);
        let t = trim(line);
        if is_header(t) {
            if a1.in_main && !a1.wrote {
                let o = a1.out.push(hl1);
                assert(o.drop_last() =~= a1.out);
                let b = rewrite_step(a12, hl1, h2);
                assert(rewrite_from(st, o, h2) == b);
                assert(b.out == a12.out.push(hl2));
                assert(r1.out == o.push(line));
                assert(o.push(line).drop_last() =~= o);
                assert(rewrite_from(st, r1.out, h2) == rewrite_step(b, line, h2));
            } else {
                assert(r1.out == a1.out.push(line));
                assert(a1.out.push(line).drop_last() =~= a1.out);
                assert(rewrite_from(st, r1.out, h2) == rewrite_step(a12, line, h2));
            }
        } else if a1.in_main && has_prefix(t, hidden_key()) {
            assert(r1.out == a1.out.push(hl1));
            assert(a1.out.push(hl1).drop_last() =~= a1.out);
            assert(rewrite_from(st, r1.out, h2) == rewrite_step(a12, hl1, h2));
        } else {
            assert(r1.out == a1.out.push(line));
            assert(a1.out.push(line).drop_last() =~= a1.out);
            assert(rewrite_from(st, r1.out, h2) == rewrite_step(a12, line, h2));
        }
    }
}

/// The last rewrite wins: rewriting `Hidden=` to `h1` and then the result to
/// `h2` gives the same text as rewriting the original to `h2` once; with
/// `h1 == h2` this says that the rewrite is idempotent. (A text holding a
/// carriage return is left out: the first rewrite turns a lone `\r` ending
/// the last line into a `\r\n` line end, which the second then drops.)
pub proof fn lemma_rewrite_last_wins(raw: Seq<char>, h1: bool, h2: bool)
    requires
        no_cr(raw),
    ensures
        rewrite_hidden_text(rewrite_hidden_text(raw, h1), h2) == rewrite_hidden_text(raw, h2),
{
    let lines = text_lines(raw);
    lemma_text_lines_no_newline(raw);
    lemma_scan_lines_no_cr(raw);
    assert(all_no_cr(lines));
    lemma_rewrite_lines_no_newline(lines, h1);
    lemma_rewrite_lines_no_cr(lines, h1);
    lemma_hidden_line_facts(h1);
    lemma_hidden_line_facts(h2);
    lemma_rewrite_twice_steps(lines, h1, h2);
    let st = rewrite_start();
    let r1 = rewrite_from(st, lines, h1);
    let r2 = rewrite_from(st, lines, h2);
    let r12 = rewrite_from(st, r1.out, h2);
    let o1 = rewritten_lines(raw, h1);
    assert forall|k: int| 0 <= k < o1.len() implies no_newline(#[trigger] o1[k]) && no_cr(o1[k]) by {
        if k < r1.out.len() {
            assert(o1[k] == r1.out[k]);
        }
    }
    lemma_scan_join(o1);
    let text1 = rewrite_hidden_text(raw, h1);
    assert(o1.map_values(|l: Seq<char>| strip_cr(l)) =~= o1) by {
        assert forall|k: int| 0 <= k < o1.len() implies strip_cr(o1[k]) == o1[k] by {
            if o1[k].len() > 0 {
                assert(o1[k].last() == o1[k][o1[k].len() - 1]);
            }
        }
    }
    assert(text_lines(text1) == o1);
    if r1.in_main && !r1.wrote {
        assert(o1 == r1.out.push(hidden_line(h1)));
        assert(o1.drop_last() =~= r1.out);
        assert(rewrite_from(st, o1, h2) == rewrite_step(r12, hidden_line(h1), h2));
    } else {
        assert(o1 == r1.out);
    }
    assert(rewritten_lines(text1, h2) == rewritten_lines(raw, h2));
}

/// The rewritten file read back line by line is the rewrite's lines (for a
/// text without carriage returns).
proof fn lemma_rewritten_text_lines(raw: Seq<char>, hidden: bool)
    requires
        no_cr(raw),
    ensures
        text_lines(rewrite_hidden_text(raw, hidden)) == rewritten_lines(raw, hidden),
{
    let lines = text_lines(raw);
    lemma_text_lines_no_newline(raw);
    lemma_scan_lines_no_cr(raw);
    lemma_rewrite_lines_no_newline(lines, hidden);
    lemma_rewrite_lines_no_cr(lines, hidden);
    lemma_hidden_line_facts(hidden);
    let r = rewrite_from(rewrite_start(), lines, hidden);
    let o = rewritten_lines(raw, hidden);
    assert forall|k: int| 0 <= k < o.len() implies no_newline(#[trigger] o[k]) && no_cr(o[k]) by {
        if k < r.out.len() {
            assert(o[k] == r.out[k]);
        }
    }
    lemma_scan_join(o);
    assert(o.map_values(|l: Seq<char>| strip_cr(l)) =~= o) by {
        assert forall|k: int| 0 <= k < o.len() implies strip_cr(o[k]) == o[k] by {
            if o[k].len() > 0 {
                assert(o[k].last() == o[k][o[k].len() - 1]);
            }
        }
    }
}

/// A line that is not a `Hidden=` line: its trimmed text does not start
/// with `Hidden=`.
pub open spec fn not_hidden_line(l: Seq<char>) -> bool {
    !(trim(l).len() >= 7 && trim(l).subrange(0, 7) == seq!['H', 'i', 'd', 'd', 'e', 'n', '='])
}

proof fn lemma_filter_push(s: Seq<Seq<char>>, x: Seq<char>)
    ensures
        s.push(x).filter(|l: Seq<char>| not_hidden_line(l)) == (if not_hidden_line(x) {
            s.filter(|l: Seq<char>| not_hidden_line(l)).push(x)
        } else {
            s.filter(|l: Seq<char>| not_hidden_line(l))
        }),
{
    reveal(Seq::filter);
    assert(s.push(x).drop_last() =~= s);
}

proof fn lemma_rewrite_steps_keep_other_lines(lines: Seq<Seq<char>>, hidden: bool)
    ensures
        rewrite_from(rewrite_start(), lines, hidden).out.filter(|l: Seq<char>| not_hidden_line(l))
            == lines.filter(|l: Seq<char>| not_hidden_line(l)),
    decreases lines.len(),
{
    reveal(Seq::filter);
    if lines.len() == 0 {
        assert(rewrite_start().out =~= lines);
    } else {
        let front = lines.drop_last();
        let line = lines.last();
        lemma_rewrite_steps_keep_other_lines(front, hidden);
        lemma_hidden_line_facts(hidden);
        let hl = hidden_line(hidden);
        assert(hl.subrange(0, 7) == hidden_key());
        assert(!not_hidden_line(hl));
        let r0 = rewrite_from(rewrite_start(), front, hidden);
        let t = trim(line);
        lemma_filter_push(front, line);
        if is_header(t) {
            assert(t.subrange(0, 7)[0] == t[0] || t.len() < 7);
            assert(not_hidden_line(line));
            if r0.in_main && !r0.wrote {
                lemma_filter_push(r0.out, hl);
                lemma_filter_push(r0.out.push(hl), line);
            } else {
                lemma_filter_push(r0.out, line);
            }
        } else if r0.in_main && has_prefix(t, hidden_key()) {
            assert(!not_hidden_line(line));
            lemma_filter_push(r0.out, hl);
        } else {
            lemma_filter_push(r0.out, line);
        }
    }
}

/// The rewrite touches only `Hidden=` lines: leaving out every line whose
/// trimmed text starts with `Hidden=`, the rewritten file has exactly the
/// lines of the original, in order (for a text without carriage returns,
/// whose lines read back unchanged).
pub proof fn lemma_rewrite_keeps_other_lines(raw: Seq<char>, hidden: bool)
    requires
        no_cr(raw),
    ensures
        text_lines(rewrite_hidden_text(raw, hidden)).filter(|l: Seq<char>| not_hidden_line(l))
            == text_lines(raw).filter(|l: Seq<char>| not_hidden_line(l)),
{
    lemma_rewritten_text_lines(raw, hidden);
    let lines = text_lines(raw);
    lemma_rewrite_steps_keep_other_lines(lines, hidden);
    let r = rewrite_from(rewrite_start(), lines, hidden);
    if r.in_main && !r.wrote {
        lemma_hidden_line_facts(hidden);
        assert(hidden_line(hidden).subrange(0, 7) == hidden_key());
        lemma_filter_push(r.out, hidden_line(hidden));
    }
}

// ---------------------------------------------------------------- exec ----

pub fn is_space_char(c: char) -> (r: bool)
    ensures
        r == is_space(c),
{
    ('\t' <= c && c <= '\r') || c == ' ' || c == '\u{85}' || c == '\u{a0}' || c == '\u{1680}' || (
    '\u{2000}' <= c && c <= '\u{200a}') || c == '\u{2028}' || c == '\u{2029}' || c == '\u{202f}'
        || c == '\u{205f}' || c == '\u{3000}'
}

/// The text each span covers.
pub open spec fn span_texts(text: Seq<char>, spans: Seq<(usize, usize)>) -> Seq<Seq<char>> {
    Seq::new(spans.len(), |i: int| text.subrange(spans[i].0 as int, spans[i].1 as int))
}

pub open spec fn spans_within(text: Seq<char>, spans: Seq<(usize, usize)>) -> bool {
    forall|i: int| 0 <= i < spans.len() ==> #[trigger] spans[i].0 <= spans[i].1 <= text.len()
}

/// Where the lines of `text` lie, as `[start, end)` spans.
pub fn line_spans(text: &Vec<char>) -> (spans: Vec<(usize, usize)>)
    ensures
        spans_within(text@, spans@),
        span_texts(text@, spans@) == text_lines(text@),
{
    let n = text.len();
    let mut spans: Vec<(usize, usize)> = Vec::new();
    let mut start: usize = 0;
    let mut i: usize = 0;
    assert(text@.take(0) =~= Seq::<char>::empty());
    while i < n
        invariant
            n == text@.len(),
            start <= i <= n,
            spans_within(text@, spans@),
            scan_lines(text@.take(i as int)).0 == span_texts(text@, spans@),
            scan_lines(text@.take(i as int)).1 == text@.subrange(start as int, i as int),
        decreases n - i,
    {
        let ghost prev = text@.take(i as int);
        assert(text@.take(i + 1).drop_last() =~= prev);
        assert(text@.take(i + 1).last() == text@[i as int]);
        if text[i] == '\n' {
            let end = if i > start && text[i - 1] == '\r' {
                i - 1
            } else {
                i
            };
            let ghost cur = text@.subrange(start as int, i as int);
            assert(strip_cr(cur) =~= text@.subrange(start as int, end as int));
            let ghost before = spans@;
            spans.push((start, end));
            assert(span_texts(text@, spans@) =~= span_texts(text@, before).push(
                text@.subrange(start as int, end as int),
            ));
            start = i + 1;
            assert(text@.subrange(start as int, i + 1) =~= Seq::<char>::empty());
        } else {
            assert(text@.subrange(start as int, i + 1) =~= text@.subrange(
                start as int,
                i as int,
            ).push(text@[i as int]));
        }
        i = i + 1;
    }
    assert(text@.take(n as int) =~= text@);
    if start < n {
        let ghost before = spans@;
        spans.push((start, n));
        assert(span_texts(text@, spans@) =~= span_texts(text@, before).push(
            text@.subrange(start as int, n as int),
        ));
    }
    spans
}

/// The span that remains of `[a, b)` once white space is trimmed off both ends.
pub fn trim_span(text: &Vec<char>, a: usize, b: usize) -> (r: (usize, usize))
    requires
        a <= b <= text@.len(),
    ensures
        a <= r.0 <= r.1 <= b,
        trim(text@.subrange(a as int, b as int)) == text@.subrange(r.0 as int, r.1 as int),
{
    let mut lo = a;
    while lo < b && is_space_char(text[lo])
        invariant
            a <= lo <= b <= text@.len(),
            trim_start(text@.subrange(a as int, b as int)) == trim_start(
                text@.subrange(lo as int, b as int),
            ),
        decreases b - lo,
    {
        assert(text@.subrange(lo as int, b as int).drop_first() =~= text@.subrange(
            lo + 1,
            b as int,
        ));
        lo = lo + 1;
    }
    if lo == b {
        assert(text@.subrange(lo as int, b as int) =~= Seq::<char>::empty());
    }
    let mut hi = b;
    while hi > lo && is_space_char(text[hi - 1])
        invariant
            a <= lo <= hi <= b <= text@.len(),
            trim_end(text@.subrange(lo as int, b as int)) == trim_end(
                text@.subrange(lo as int, hi as int),
            ),
        decreases hi,
    {
        assert(text@.subrange(lo as int, hi as int).drop_last() =~= text@.subrange(
            lo as int,
            hi - 1,
        ));
        hi = hi - 1;
    }
    (lo, hi)
}

/// Whether the span `[a, b)` starts with `key`.
fn span_starts_with(text: &Vec<char>, a: usize, b: usize, key: &[char]) -> (r: bool)
    requires
        a <= b <= text@.len(),
    ensures
        r == has_prefix(text@.subrange(a as int, b as int), key@),
{
    let k = key.len();
    if k > b - a {
        return false;
    }
    let mut i: usize = 0;
    while i < k
        invariant
            k == key@.len(),
            a + k <= b <= text@.len(),
            i <= k,
            forall|j: int| 0 <= j < i ==> #[trigger] text@[a + j] == key@[j],
        decreases k - i,
    {
        if text[a + i] != key[i] {
            assert(text@.subrange(a as int, b as int).subrange(0, k as int)[i as int]
                != key@[i as int]);
            return false;
        }
        i = i + 1;
    }
    assert forall|j: int| 0 <= j < k implies #[trigger] text@.subrange(a as int, b as int).subrange(
        0,
        k as int,
    )[j] == key@[j] by {
        assert(text@[a + j] == key@[j]);
    }
    assert(text@.subrange(a as int, b as int).subrange(0, k as int) =~= key@);
    true
}

/// Whether the span `[a, b)` equals `word` ignoring ASCII case.
fn span_eq_ignore_case(text: &Vec<char>, a: usize, b: usize, word: &[char]) -> (r: bool)
    requires
        a <= b <= text@.len(),
    ensures
        r == eq_ignore_case(text@.subrange(a as int, b as int), word@),
{
    let k = word.len();
    if k != b - a {
        return false;
    }
    let mut i: usize = 0;
    while i < k
        invariant
            k == word@.len(),
            a + k == b <= text@.len(),
            i <= k,
            forall|j: int| 0 <= j < i ==> #[trigger] lower_char(text@[a + j]) == lower_char(
                word@[j],
            ),
        decreases k - i,
    {
        if lower_char_exec(text[a + i]) != lower_char_exec(word[i]) {
            assert(lower_char(text@.subrange(a as int, b as int)[i as int]) != lower_char(
                word@[i as int],
            ));
            return false;
        }
        i = i + 1;
    }
    assert forall|j: int| 0 <= j < k implies #[trigger] lower_char(
        text@.subrange(a as int, b as int)[j],
    ) == lower_char(word@[j]) by {
        assert(lower_char(text@[a + j]) == lower_char(word@[j]));
    }
    true
}

fn lower_char_exec(c: char) -> (r: char)
    ensures
        r == lower_char(c),
{
    if 'A' <= c && c <= 'Z' {
        ((c as u8) + 32) as char
    } else {
        c
    }
}

/// The characters of the span `[a, b)` as a new string.
fn span_string(text: &Vec<char>, a: usize, b: usize) -> (s: String)
    requires
        a <= b <= text@.len(),
    ensures
        s@ == text@.subrange(a as int, b as int),
{
    let mut s = String::new();
    push_span(&mut s, text, a, b);
    s
}

fn main_header_chars() -> (r: [char; 15])
    ensures
        r@ == main_header(),
{
    let r = ['[', 'D', 'e', 's', 'k', 't', 'o', 'p', ' ', 'E', 'n', 't', 'r', 'y', ']'];
    assert(r@ =~= main_header());
    r
}

fn name_key_chars() -> (r: [char; 5])
    ensures
        r@ == name_key(),
{
    let r = ['N', 'a', 'm', 'e', '='];
    assert(r@ =~= name_key());
    r
}

fn exec_key_chars() -> (r: [char; 5])
    ensures
        r@ == exec_key(),
{
    let r = ['E', 'x', 'e', 'c', '='];
    assert(r@ =~= exec_key());
    r
}

fn hidden_key_chars() -> (r: [char; 7])
    ensures
        r@ == hidden_key(),
{
    let r = ['H', 'i', 'd', 'd', 'e', 'n', '='];
    assert(r@ =~= hidden_key());
    r
}

fn true_word_chars() -> (r: [char; 4])
    ensures
        r@ == true_word(),
{
    let r = ['t', 'r', 'u', 'e'];
    assert(r@ =~= true_word());
    r
}

/// Appends the `Hidden=` line for `hidden`, without its newline.
fn push_hidden_line(out: &mut String, hidden: bool)
    ensures
        final(out)@ == old(out)@ + hidden_line(hidden),
{
    if hidden {
        let v = ['H', 'i', 'd', 'd', 'e', 'n', '=', 't', 'r', 'u', 'e'];
        assert(v@ =~= hidden_line(true));
        push_chars(out, &v);
    } else {
        let v = ['H', 'i', 'd', 'd', 'e', 'n', '=', 'f', 'a', 'l', 's', 'e'];
        assert(v@ =~= hidden_line(false));
        push_chars(out, &v);
    }
}

/// Whether the span `[a, b)` is a section header.
fn span_is_header(text: &Vec<char>, a: usize, b: usize) -> (r: bool)
    requires
        a <= b <= text@.len(),
    ensures
        r == is_header(text@.subrange(a as int, b as int)),
{
    b > a && text[a] == '[' && text[b - 1] == ']'
}

/// Whether the span `[a, b)` is exactly `[Desktop Entry]`.
fn span_is_main_header(text: &Vec<char>, a: usize, b: usize) -> (r: bool)
    requires
        a <= b <= text@.len(),
    ensures
        r == (text@.subrange(a as int, b as int) == main_header()),
{
    let h = main_header_chars();
    assert(main_header().len() == 15);
    if b - a != 15 {
        return false;
    }
    let r = span_starts_with(text, a, b, &h);
    assert(text@.subrange(a as int, b as int).subrange(0, 15) =~= text@.subrange(a as int, b as int));
    r
}

/// Reads what a desktop file says of its entry: the name (`default_name`
/// when the `[Desktop Entry]` section has no `Name=`), the command, and
/// whether it is hidden.
pub fn scan_desktop_entry(raw: &str, default_name: String) -> (r: (String, String, bool))
    ensures
        r.0@ == scan_entry(raw@, default_name@).name,
        r.1@ == scan_entry(raw@, default_name@).command,
        r.2 == scan_entry(raw@, default_name@).hidden,
{
    let text = chars_of(raw);
    let spans = line_spans(&text);
    let ghost lines = span_texts(text@, spans@);
    let name_key_v = name_key_chars();
    let exec_key_v = exec_key_chars();
    let hidden_key_v = hidden_key_chars();
    let true_v = true_word_chars();
    let mut name = default_name;
    let mut command = String::new();
    let mut hidden = false;
    let mut in_main = false;
    let ghost start = scan_start(default_name@);
    let n = spans.len();
    let mut k: usize = 0;
    assert(lines.take(0) =~= Seq::<Seq<char>>::empty());
    while k < n
        invariant
            n == spans@.len(),
            k <= n,
            text@ == raw@,
            spans_within(text@, spans@),
            lines == span_texts(text@, spans@),
            lines == text_lines(raw@),
            name_key_v@ == name_key(),
            exec_key_v@ == exec_key(),
            hidden_key_v@ == hidden_key(),
            true_v@ == true_word(),
            scan_from(start, lines.take(k as int)) == (EntryScan {
                name: name@,
                command: command@,
                hidden,
                in_main,
            }),
        decreases n - k,
    {
        let (s, e) = spans[k];
        assert(spans@[k as int].0 <= spans@[k as int].1 <= text@.len());
        let (a, b) = trim_span(&text, s, e);
        let ghost line = lines[k as int];
        assert(line == text@.subrange(s as int, e as int));
        let ghost t = text@.subrange(a as int, b as int);
        assert(lines.take(k + 1).drop_last() =~= lines.take(k as int));
        assert(lines.take(k + 1).last() == line);
        if a == b || text[a] == '#' {
        } else if span_is_header(&text, a, b) {
            in_main = span_is_main_header(&text, a, b);
        } else if !in_main {
        } else if span_starts_with(&text, a, b, &name_key_v) {
            name = span_string(&text, a + 5, b);
            assert(t.skip(5) =~= text@.subrange(a + 5, b as int));
        } else if span_starts_with(&text, a, b, &exec_key_v) {
            command = span_string(&text, a + 5, b);
            assert(t.skip(5) =~= text@.subrange(a + 5, b as int));
        } else if span_starts_with(&text, a, b, &hidden_key_v) {
            hidden = span_eq_ignore_case(&text, a + 7, b, &true_v);
            assert(t.skip(7) =~= text@.subrange(a + 7, b as int));
        }
        k = k + 1;
    }
    assert(lines.take(n as int) =~= lines);
    (name, command, hidden)
}

/// Sets `Hidden=` in the `[Desktop Entry]` section: every `Hidden=` line of
/// the section is replaced, and a section without one gets it before the
/// next header (or at the end). Other lines are copied; every line of the
/// result ends with `\n`.
pub fn rewrite_hidden(raw: &str, hidden: bool) -> (r: String)
    ensures
        r@ == rewrite_hidden_text(raw@, hidden),
{
    let text = chars_of(raw);
    let spans = line_spans(&text);
    let ghost lines = span_texts(text@, spans@);
    let hidden_key_v = hidden_key_chars();
    let mut out = String::new();
    let mut in_main = false;
    let mut wrote = false;
    let n = spans.len();
    let mut k: usize = 0;
    assert(lines.take(0) =~= Seq::<Seq<char>>::empty());
    while k < n
        invariant
            n == spans@.len(),
            k <= n,
            text@ == raw@,
            spans_within(text@, spans@),
            lines == span_texts(text@, spans@),
            lines == text_lines(raw@),
            hidden_key_v@ == hidden_key(),
            out@ == join_lines(rewrite_from(rewrite_start(), lines.take(k as int), hidden).out),
            in_main == rewrite_from(rewrite_start(), lines.take(k as int), hidden).in_main,
            wrote == rewrite_from(rewrite_start(), lines.take(k as int), hidden).wrote,
        decreases n - k,
    {
        let (s, e) = spans[k];
        assert(spans@[k as int].0 <= spans@[k as int].1 <= text@.len());
        let (a, b) = trim_span(&text, s, e);
        let ghost line = lines[k as int];
        assert(line == text@.subrange(s as int, e as int));
        assert(lines.take(k + 1).drop_last() =~= lines.take(k as int));
        assert(lines.take(k + 1).last() == line);
        let ghost prev = rewrite_from(rewrite_start(), lines.take(k as int), hidden);
        if span_is_header(&text, a, b) {
            if in_main && !wrote {
                push_hidden_line(&mut out, hidden);
                out.push('\n');
                proof {
                    lemma_join_push(prev.out, hidden_line(hidden));
                }
                wrote = true;
            }
            let ghost mid = out@;
            push_span(&mut out, &text, s, e);
            out.push('\n');
            in_main = span_is_main_header(&text, a, b);
            proof {
                let o1 = if prev.in_main && !prev.wrote {
                    prev.out.push(hidden_line(hidden))
                } else {
                    prev.out
                };
                assert(mid == join_lines(o1));
                lemma_join_push(o1, line);
                assert(out@ =~= mid + line.push('\n'));
            }
        } else if in_main && span_starts_with(&text, a, b, &hidden_key_v) {
            push_hidden_line(&mut out, hidden);
            out.push('\n');
            proof {
                lemma_join_push(prev.out, hidden_line(hidden));
            }
            wrote = true;
        } else {
            push_span(&mut out, &text, s, e);
            out.push('\n');
            proof {
                lemma_join_push(prev.out, line);
            }
        }
        k = k + 1;
    }
    assert(lines.take(n as int) =~= lines);
    if in_main && !wrote {
        let ghost st = rewrite_from(rewrite_start(), lines, hidden);
        push_hidden_line(&mut out, hidden);
        out.push('\n');
        proof {
            lemma_join_push(st.out, hidden_line(hidden));
        }
    }
    out
}

} // verus!
