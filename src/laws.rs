//! Laws that relate the parser and the writer.
use vstd::prelude::*;
use crate::model::{EntryModel, StartupEntry};
use crate::parse::{
    assign, close_group, entry_group, first_eq_at, has_prefix, initial_scan, is_header, lines_of,
    parse_spec, run, split_acc, step, Scan,
};
use crate::render::{
    bool_text, extra_lines, head_lines, is_known_key, localized_lines, other_lines, render_lines,
    render_spec, terminated, text_of, trim_newlines,
};
use crate::text::{is_space, strip_brackets, strip_close, strip_open, trim, trim_end, trim_start};

verus! {

/// No line break inside.
pub open spec fn no_newline(l: Seq<char>) -> bool {
    forall|i: int| 0 <= i < l.len() ==> l[i] != '\n'
}

/// A line that survives being written and read back unchanged.
pub open spec fn plain_line(l: Seq<char>) -> bool {
    no_newline(l) && !(l.len() > 0 && l.last() == '\r')
}

pub open spec fn all_plain(ls: Seq<Seq<char>>) -> bool {
    forall|i: int| 0 <= i < ls.len() ==> plain_line(#[trigger] ls[i])
}

proof fn lemma_split_plain(t: Seq<char>, s: Seq<char>)
    requires
        no_newline(s),
    ensures
        split_acc(t + s) == (split_acc(t).0, split_acc(t).1 + s),
    decreases s.len(),
{
    if s.len() == 0 {
        assert(t + s =~= t);
        assert(split_acc(t).1 + s =~= split_acc(t).1);
    } else {
        let s0 = s.drop_last();
        assert((t + s).drop_last() =~= t + s0);
        assert((t + s).last() == s.last());
        lemma_split_plain(t, s0);
        assert(split_acc(t).1 + s0.push(s.last()) =~= split_acc(t).1 + s);
        assert(s0.push(s.last()) =~= s);
        assert((split_acc(t).1 + s0).push(s.last()) =~= split_acc(t).1 + s);
    }
}

proof fn lemma_split_terminated(ls: Seq<Seq<char>>)
    requires
        all_plain(ls),
    ensures
        split_acc(terminated(ls)) == (ls, Seq::<char>::empty()),
    decreases ls.len(),
{
    if ls.len() == 0 {
        assert(split_acc(seq![]) == (Seq::<Seq<char>>::empty(), Seq::<char>::empty()));
        assert(ls =~= Seq::<Seq<char>>::empty());
    } else {
        let prev = ls.drop_last();
        let l = ls.last();
        assert(all_plain(prev)) by {
            assert forall|i: int| 0 <= i < prev.len() implies plain_line(#[trigger] prev[i]) by {
                assert(prev[i] == ls[i]);
            }
        }
        assert(plain_line(ls[ls.len() - 1]));
        lemma_split_terminated(prev);
        let t = terminated(prev);
        let full = terminated(ls);
        assert(full == t + l.push('\n'));
        assert(full.drop_last() =~= t + l);
        assert(full.last() == '\n');
        lemma_split_plain(t, l);
        assert(Seq::<char>::empty() + l =~= l);
        assert(prev.push(l) =~= ls);
    }
}

/// The lines of the text of `ls` are `ls` itself, when no line breaks or
/// ends in a carriage return and the last line is not empty.
proof fn lemma_lines_of_text(ls: Seq<Seq<char>>)
    requires
        all_plain(ls),
        ls.len() > 0,
        ls.last().len() > 0,
    ensures
        lines_of(text_of(ls)) == ls,
{
    lemma_split_terminated(ls);
    let t = terminated(ls);
    let last = ls.last();
    assert(t == terminated(ls.drop_last()) + last.push('\n'));
    assert(plain_line(ls[ls.len() - 1]));
    assert(t.len() >= 2);
    assert(t[t.len() - 2] == last.last());
    assert(trim_newlines(t) == trim_newlines(t.drop_last()));
    assert(trim_newlines(t.drop_last()) == t.drop_last());
    assert(t.drop_last().push('\n') =~= t);
}

proof fn lemma_run_concat(st: Scan, a: Seq<Seq<char>>, b: Seq<Seq<char>>)
    ensures
        run(st, a + b) == run(run(st, a), b),
    decreases b.len(),
{
    if b.len() == 0 {
        assert(a + b =~= a);
    } else {
        assert((a + b).drop_last() =~= a + b.drop_last());
        assert((a + b).last() == b.last());
        lemma_run_concat(st, a, b.drop_last());
    }
}

proof fn lemma_run_one(st: Scan, l: Seq<char>)
    ensures
        run(st, seq![l]) == step(st, l),
{
    assert(seq![l].drop_last() =~= Seq::<Seq<char>>::empty());
    assert(run(st, seq![l].drop_last()) == st);
    assert(seq![l].last() == l);
}

proof fn lemma_trim_start_len(s: Seq<char>)
    ensures
        trim_start(s).len() <= s.len(),
    decreases s.len(),
{
    if s.len() > 0 && is_space(s[0]) {
        lemma_trim_start_len(s.drop_first());
    }
}

proof fn lemma_trim_end_len(s: Seq<char>)
    ensures
        trim_end(s).len() <= s.len(),
    decreases s.len(),
{
    if s.len() > 0 && is_space(s.last()) {
        lemma_trim_end_len(s.drop_last());
    }
}

/// A trimmed non-empty text has no white space at either end.
proof fn lemma_trim_fixed(s: Seq<char>)
    requires
        trim(s) == s,
        s.len() > 0,
    ensures
        !is_space(s[0]),
        !is_space(s.last()),
{
    if is_space(s[0]) {
        lemma_trim_start_len(s.drop_first());
        lemma_trim_end_len(trim_start(s));
    } else {
        assert(trim_start(s) == s);
        if is_space(s.last()) {
            lemma_trim_end_len(s.drop_last());
        }
    }
}

proof fn lemma_trim_id(s: Seq<char>)
    requires
        s.len() == 0 || (!is_space(s[0]) && !is_space(s.last())),
    ensures
        trim(s) == s,
{
    assert(trim_start(s) == s);
}

/// The line `key=value`.
pub open spec fn kv_line(key: Seq<char>, value: Seq<char>) -> Seq<char> {
    key + "="@ + value
}

/// What a `key=value` line of the entry section needs to be read back as
/// that pair.
pub open spec fn kv_readable(key: Seq<char>, value: Seq<char>) -> bool {
    &&& trim(key) == key
    &&& trim(value) == value
    &&& forall|i: int| 0 <= i < key.len() ==> key[i] != '='
    &&& !(key.len() > 0 && key[0] == '#')
    &&& !is_header(kv_line(key, value))
}

proof fn lemma_kv_step(st: Scan, key: Seq<char>, value: Seq<char>)
    requires
        st.group == Some(entry_group()),
        kv_readable(key, value),
    ensures
        step(st, kv_line(key, value)) == (Scan { model: assign(st.model, key, value), ..st }),
{
    reveal_strlit("=");
    let line = kv_line(key, value);
    let k = key.len() as int;
    assert(line.len() == key.len() + 1 + value.len());
    assert(line[k] == '=');
    if key.len() > 0 {
        lemma_trim_fixed(key);
        assert(line[0] == key[0]);
    }
    if value.len() > 0 {
        lemma_trim_fixed(value);
        assert(line.last() == value.last());
    }
    lemma_trim_id(line);
    assert(first_eq_at(line, k));
    let c = choose|c: int| first_eq_at(line, c);
    assert(c == k) by {
        if c < k {
            assert(line[c] == key[c]);
        } else if k < c {
            assert(line[k] != '=');
        }
    }
    assert(line.subrange(0, k) =~= key);
    assert(line.subrange(k + 1, line.len() as int) =~= value);
}

/// A line that the entry section keeps as a comment.
pub open spec fn is_comment(l: Seq<char>) -> bool {
    trim(l).len() == 0 || trim(l)[0] == '#'
}

proof fn lemma_run_preamble(st: Scan, p: Seq<Seq<char>>)
    requires
        st.group is None,
        forall|i: int| 0 <= i < p.len() ==> !is_header(trim(#[trigger] p[i])),
    ensures
        run(st, p) == (Scan {
            model: EntryModel { preamble: st.model.preamble + p, ..st.model },
            ..st
        }),
    decreases p.len(),
{
    if p.len() == 0 {
        assert(st.model.preamble + p =~= st.model.preamble);
    } else {
        lemma_run_preamble(st, p.drop_last());
        assert(!is_header(trim(p[p.len() - 1])));
        assert((st.model.preamble + p.drop_last()).push(p.last()) =~= st.model.preamble + p);
    }
}

proof fn lemma_run_comments(st: Scan, c: Seq<Seq<char>>)
    requires
        st.group == Some(entry_group()),
        forall|i: int| 0 <= i < c.len() ==> is_comment(#[trigger] c[i]),
    ensures
        run(st, c) == (Scan {
            model: EntryModel { comments: st.model.comments + c, ..st.model },
            ..st
        }),
    decreases c.len(),
{
    if c.len() == 0 {
        assert(st.model.comments + c =~= st.model.comments);
    } else {
        lemma_run_comments(st, c.drop_last());
        assert(is_comment(c[c.len() - 1]));
        assert((st.model.comments + c.drop_last()).push(c.last()) =~= st.model.comments + c);
    }
}

/// A localized name that reads back as itself.
pub open spec fn locale_ok(p: (Seq<char>, Seq<char>)) -> bool {
    &&& forall|i: int| 0 <= i < p.0.len() ==> p.0[i] != '=' && p.0[i] != '\n'
    &&& no_newline(p.1)
    &&& trim(p.1) == p.1
}

pub open spec fn locale_key(loc: Seq<char>) -> Seq<char> {
    "Name["@ + loc + "]"@
}

proof fn lemma_locale_line(st: Scan, p: (Seq<char>, Seq<char>))
    requires
        st.group == Some(entry_group()),
        locale_ok(p),
    ensures
        "Name["@ + p.0 + "]="@ + p.1 == kv_line(locale_key(p.0), p.1),
        step(st, kv_line(locale_key(p.0), p.1)) == (Scan {
            model: EntryModel { localized: st.model.localized.push(p), ..st.model },
            ..st
        }),
{
    reveal_strlit("Name[");
    reveal_strlit("]");
    reveal_strlit("]=");
    reveal_strlit("=");
    reveal_strlit("Name");
    let key = locale_key(p.0);
    assert("Name["@ + p.0 + "]="@ + p.1 =~= kv_line(key, p.1));
    assert(key.len() == p.0.len() + 6);
    assert(key[0] == 'N');
    assert(key.last() == ']');
    lemma_trim_id(key);
    assert forall|i: int| 0 <= i < key.len() implies key[i] != '=' by {
        if 5 <= i < key.len() - 1 {
            assert(key[i] == p.0[i - 5]);
        }
    }
    assert(kv_line(key, p.1)[0] == 'N');
    lemma_kv_step(st, key, p.1);
    assert(key != "Name"@);
    assert(key.subrange(0, 5) =~= "Name["@);
    let rest = key.subrange("Name["@.len() as int, key.len() as int);
    assert(rest.drop_last() =~= p.0);
}

proof fn lemma_localized_lines(l: Seq<(Seq<char>, Seq<char>)>)
    ensures
        localized_lines(l).len() == l.len(),
        forall|i: int|
            0 <= i < l.len() ==> #[trigger] localized_lines(l)[i] == "Name["@ + l[i].0 + "]="@
                + l[i].1,
    decreases l.len(),
{
    if l.len() > 0 {
        lemma_localized_lines(l.drop_last());
    }
}

proof fn lemma_run_localized(st: Scan, l: Seq<(Seq<char>, Seq<char>)>)
    requires
        st.group == Some(entry_group()),
        forall|i: int| 0 <= i < l.len() ==> locale_ok(#[trigger] l[i]),
    ensures
        run(st, localized_lines(l)) == (Scan {
            model: EntryModel { localized: st.model.localized + l, ..st.model },
            ..st
        }),
    decreases l.len(),
{
    if l.len() == 0 {
        assert(st.model.localized + l =~= st.model.localized);
    } else {
        let prev = l.drop_last();
        lemma_run_localized(st, prev);
        assert(locale_ok(l[l.len() - 1]));
        let mid = run(st, localized_lines(prev));
        lemma_locale_line(mid, l.last());
        assert(localized_lines(l).drop_last() == localized_lines(prev));
        assert((st.model.localized + prev).push(l.last()) =~= st.model.localized + l);
    }
}

/// An unrecognized pair that reads back as itself.
pub open spec fn extra_ok(p: (Seq<char>, Seq<char>)) -> bool {
    &&& kv_readable(p.0, p.1)
    &&& !is_known_key(p.0)
    &&& no_newline(p.0)
    &&& no_newline(p.1)
}

proof fn lemma_extra_lines(e: Seq<(Seq<char>, Seq<char>)>)
    requires
        forall|i: int| 0 <= i < e.len() ==> !is_known_key(#[trigger] e[i].0),
    ensures
        extra_lines(e).len() == e.len(),
        forall|i: int| 0 <= i < e.len() ==> #[trigger] extra_lines(e)[i] == kv_line(e[i].0, e[i].1),
    decreases e.len(),
{
    if e.len() > 0 {
        let prev = e.drop_last();
        assert forall|i: int| 0 <= i < prev.len() implies !is_known_key(#[trigger] prev[i].0) by {
            assert(prev[i] == e[i]);
        }
        lemma_extra_lines(prev);
        assert(!is_known_key(e[e.len() - 1].0));
    }
}

proof fn lemma_run_extras(st: Scan, e: Seq<(Seq<char>, Seq<char>)>)
    requires
        st.group == Some(entry_group()),
        forall|i: int| 0 <= i < e.len() ==> extra_ok(#[trigger] e[i]),
    ensures
        run(st, extra_lines(e)) == (Scan {
            model: EntryModel { extra: st.model.extra + e, ..st.model },
            ..st
        }),
    decreases e.len(),
{
    if e.len() == 0 {
        assert(st.model.extra + e =~= st.model.extra);
    } else {
        let prev = e.drop_last();
        assert forall|i: int| 0 <= i < prev.len() implies extra_ok(#[trigger] prev[i]) by {
            assert(prev[i] == e[i]);
        }
        lemma_run_extras(st, prev);
        let p = e.last();
        assert(extra_ok(e[e.len() - 1]));
        let mid = run(st, extra_lines(prev));
        lemma_kv_step(mid, p.0, p.1);
        assert(extra_lines(e) == extra_lines(prev).push(kv_line(p.0, p.1)));
        assert(extra_lines(e).drop_last() =~= extra_lines(prev));
        assert(extra_lines(e).last() == kv_line(p.0, p.1));
        assert(assign(mid.model, p.0, p.1) == (EntryModel {
            extra: mid.model.extra.push(p),
            ..mid.model
        }));
        assert((st.model.extra + prev).push(p) =~= st.model.extra + e);
    }
}

/// A section other than the entry section: its header line first, no other
/// header after it.
pub open spec fn block_ok(b: Seq<Seq<char>>) -> bool {
    &&& b.len() > 0
    &&& is_header(trim(b[0]))
    &&& strip_brackets(trim(b[0])) != entry_group()
    &&& forall|j: int| 1 <= j < b.len() ==> !is_header(trim(#[trigger] b[j]))
}

pub open spec fn block_name(b: Seq<Seq<char>>) -> Seq<char> {
    strip_brackets(trim(b[0]))
}

proof fn lemma_run_block_rest(st: Scan, r: Seq<Seq<char>>)
    requires
        st.group matches Some(g) && g != entry_group(),
        forall|j: int| 0 <= j < r.len() ==> !is_header(trim(#[trigger] r[j])),
    ensures
        run(st, r) == (Scan { current: st.current + r, ..st }),
    decreases r.len(),
{
    if r.len() == 0 {
        assert(st.current + r =~= st.current);
    } else {
        lemma_run_block_rest(st, r.drop_last());
        assert(!is_header(trim(r[r.len() - 1])));
        assert((st.current + r.drop_last()).push(r.last()) =~= st.current + r);
    }
}

proof fn lemma_run_block(st: Scan, b: Seq<Seq<char>>)
    requires
        block_ok(b),
        st.group is Some,
    ensures
        run(st, b) == (Scan {
            group: Some(block_name(b)),
            current: b,
            ..close_group(st)
        }),
{
    let rest = b.drop_first();
    assert(b =~= seq![b[0]] + rest);
    lemma_run_concat(st, seq![b[0]], rest);
    lemma_run_one(st, b[0]);
    let st1 = step(st, b[0]);
    assert(st1 == (Scan {
        group: Some(block_name(b)),
        current: seq![b[0]],
        ..close_group(st)
    }));
    assert forall|j: int| 0 <= j < rest.len() implies !is_header(trim(#[trigger] rest[j])) by {
        assert(rest[j] == b[j + 1]);
    }
    lemma_run_block_rest(st1, rest);
    assert(seq![b[0]] + rest =~= b);
}

/// Sections that read back as themselves: each but the last ends with a
/// blank line, the last does not.
pub open spec fn blocks_ok(o: Seq<Seq<Seq<char>>>) -> bool {
    forall|i: int|
        0 <= i < o.len() ==> {
            &&& block_ok(#[trigger] o[i])
            &&& all_plain(o[i])
            &&& (i < o.len() - 1 ==> o[i].last().len() == 0)
            &&& (i == o.len() - 1 ==> o[i].last().len() > 0)
        }
}

proof fn lemma_other_lines_step(o: Seq<Seq<Seq<char>>>, n: int)
    requires
        blocks_ok(o),
        1 <= n <= o.len(),
    ensures
        other_lines(o, n) == other_lines(o, n - 1) + o[n - 1],
{
    assert(block_ok(o[n - 1]));
    if n != o.len() {
        assert(o[n - 1].last().len() == 0);
    }
    assert(other_lines(o, n - 1) + o[n - 1] + Seq::<Seq<char>>::empty() =~= other_lines(o, n - 1)
        + o[n - 1]);
}

proof fn lemma_run_others(st: Scan, o: Seq<Seq<Seq<char>>>, n: int)
    requires
        st.group == Some(entry_group()),
        st.current.len() == 0,
        blocks_ok(o),
        1 <= n <= o.len(),
    ensures
        run(st, other_lines(o, n)) == (Scan {
            model: EntryModel { others: st.model.others + o.subrange(0, n - 1), ..st.model },
            group: Some(block_name(o[n - 1])),
            current: o[n - 1],
        }),
    decreases n,
{
    lemma_other_lines_step(o, n);
    lemma_run_concat(st, other_lines(o, n - 1), o[n - 1]);
    assert(block_ok(o[n - 1]));
    if n == 1 {
        assert(other_lines(o, 0) == Seq::<Seq<char>>::empty());
        assert(run(st, Seq::<Seq<char>>::empty()) == st);
        lemma_run_block(st, o[0]);
        assert(st.model.others + o.subrange(0, 0) =~= st.model.others);
    } else {
        lemma_run_others(st, o, n - 1);
        let mid = run(st, other_lines(o, n - 1));
        assert(block_ok(o[n - 2]));
        lemma_run_block(mid, o[n - 1]);
        assert(st.model.others + o.subrange(0, n - 2) + seq![o[n - 2]] =~= st.model.others
            + o.subrange(0, n - 1));
        assert((st.model.others + o.subrange(0, n - 2)).push(o[n - 2]) =~= st.model.others
            + o.subrange(0, n - 1));
    }
}

proof fn lemma_all_plain_concat(a: Seq<Seq<char>>, b: Seq<Seq<char>>)
    requires
        all_plain(a),
        all_plain(b),
    ensures
        all_plain(a + b),
{
    assert forall|i: int| 0 <= i < (a + b).len() implies plain_line(#[trigger] (a + b)[i]) by {
        if i < a.len() {
            assert((a + b)[i] == a[i]);
        } else {
            assert((a + b)[i] == b[i - a.len()]);
        }
    }
}

proof fn lemma_plain_kv(key: Seq<char>, value: Seq<char>)
    requires
        no_newline(key),
        no_newline(value),
        trim(value) == value,
    ensures
        plain_line(kv_line(key, value)),
        kv_line(key, value).len() > 0,
{
    reveal_strlit("=");
    let line = kv_line(key, value);
    assert forall|i: int| 0 <= i < line.len() implies line[i] != '\n' by {
        if i < key.len() {
            assert(line[i] == key[i]);
        } else if i > key.len() {
            assert(line[i] == value[i - key.len() - 1]);
        }
    }
    if value.len() > 0 {
        lemma_trim_fixed(value);
        assert(line.last() == value.last());
    }
}

proof fn lemma_other_plain(o: Seq<Seq<Seq<char>>>, n: int)
    requires
        blocks_ok(o),
        0 <= n <= o.len(),
    ensures
        all_plain(other_lines(o, n)),
    decreases n,
{
    if n > 0 {
        lemma_other_plain(o, n - 1);
        lemma_other_lines_step(o, n);
        assert(all_plain(o[n - 1]));
        lemma_all_plain_concat(other_lines(o, n - 1), o[n - 1]);
    } else {
        assert(other_lines(o, n) == Seq::<Seq<char>>::empty());
    }
}

/// A literal key line `key=value` of the entry section is read as `assign`
/// says, and is a plain line.
proof fn lemma_literal_kv(st: Scan, key: Seq<char>, value: Seq<char>)
    requires
        st.group == Some(entry_group()),
        key.len() > 0,
        !is_space(key[0]),
        !is_space(key.last()),
        key[0] != '#',
        key[0] != '[',
        forall|i: int| 0 <= i < key.len() ==> key[i] != '=' && key[i] != '\n',
        trim(value) == value,
        no_newline(value),
    ensures
        step(st, kv_line(key, value)) == (Scan { model: assign(st.model, key, value), ..st }),
        plain_line(kv_line(key, value)),
        kv_line(key, value).len() > 0,
{
    reveal_strlit("=");
    lemma_trim_id(key);
    assert(kv_line(key, value)[0] == key[0]);
    lemma_kv_step(st, key, value);
    lemma_plain_kv(key, value);
}

proof fn lemma_header_line(st: Scan)
    requires
        st.group is None,
    ensures
        plain_line("[Desktop Entry]"@),
        step(st, "[Desktop Entry]"@) == (Scan {
            group: Some(entry_group()),
            current: Seq::<Seq<char>>::empty(),
            ..close_group(st)
        }),
{
    reveal_strlit("[Desktop Entry]");
    reveal_strlit("Desktop Entry");
    let hl = "[Desktop Entry]"@;
    lemma_trim_id(hl);
    assert(strip_open(hl) == strip_open(hl.drop_first()));
    assert(strip_open(hl.drop_first()) == hl.drop_first());
    assert(strip_close(hl.drop_first()) == strip_close(hl.drop_first().drop_last()));
    assert(hl.drop_first().drop_last() =~= "Desktop Entry"@);
}

proof fn lemma_type_line(st: Scan)
    requires
        st.group == Some(entry_group()),
    ensures
        plain_line("Type=Application"@),
        step(st, "Type=Application"@) == st,
{
    reveal_strlit("Type=Application");
    reveal_strlit("Type");
    reveal_strlit("Application");
    reveal_strlit("=");
    reveal_strlit("Name");
    reveal_strlit("Name[");
    reveal_strlit("Exec");
    reveal_strlit("Hidden");
    reveal_strlit("X-GNOME-Autostart-enabled");
    assert("Type=Application"@ =~= kv_line("Type"@, "Application"@));
    lemma_trim_id("Application"@);
    lemma_literal_kv(st, "Type"@, "Application"@);
    assert("Type"@ != "Name"@) by {
        assert("Type"@[0] != "Name"@[0]);
    }
    assert("Type"@ != "Exec"@) by {
        assert("Type"@[0] != "Exec"@[0]);
    }
    assert("Type"@ != "Hidden"@);
    assert("Type"@ != "X-GNOME-Autostart-enabled"@);
}

proof fn lemma_name_line(st: Scan, name: Seq<char>)
    requires
        st.group == Some(entry_group()),
        no_newline(name),
        trim(name) == name,
    ensures
        plain_line("Name="@ + name),
        step(st, "Name="@ + name) == (Scan {
            model: EntryModel { name: name, ..st.model },
            ..st
        }),
{
    reveal_strlit("Name=");
    reveal_strlit("Name");
    reveal_strlit("=");
    assert("Name="@ + name =~= kv_line("Name"@, name));
    lemma_literal_kv(st, "Name"@, name);
}

proof fn lemma_exec_line(st: Scan, cmd: Seq<char>)
    requires
        st.group == Some(entry_group()),
        no_newline(cmd),
        trim(cmd) == cmd,
    ensures
        plain_line("Exec="@ + cmd),
        step(st, "Exec="@ + cmd) == (Scan {
            model: EntryModel { command: cmd, ..st.model },
            ..st
        }),
{
    reveal_strlit("Exec=");
    reveal_strlit("Exec");
    reveal_strlit("Name");
    reveal_strlit("Name[");
    reveal_strlit("=");
    assert("Exec="@ + cmd =~= kv_line("Exec"@, cmd));
    lemma_literal_kv(st, "Exec"@, cmd);
    assert("Exec"@ != "Name"@) by {
        assert("Exec"@[0] != "Name"@[0]);
    }
}

proof fn lemma_bool_text(b: bool)
    ensures
        trim(bool_text(b)) == bool_text(b),
        no_newline(bool_text(b)),
        (bool_text(b) == "true"@) == b,
{
    reveal_strlit("true");
    reveal_strlit("false");
    lemma_trim_id(bool_text(b));
    assert("false"@ != "true"@);
}

proof fn lemma_gnome_line(st: Scan, en: bool)
    requires
        st.group == Some(entry_group()),
    ensures
        plain_line("X-GNOME-Autostart-enabled="@ + bool_text(en)),
        step(st, "X-GNOME-Autostart-enabled="@ + bool_text(en)) == (Scan {
            model: EntryModel { enabled: en, ..st.model },
            ..st
        }),
{
    reveal_strlit("X-GNOME-Autostart-enabled=");
    reveal_strlit("X-GNOME-Autostart-enabled");
    reveal_strlit("Name");
    reveal_strlit("Name[");
    reveal_strlit("Exec");
    reveal_strlit("Hidden");
    reveal_strlit("=");
    let xk = "X-GNOME-Autostart-enabled"@;
    assert("X-GNOME-Autostart-enabled="@ + bool_text(en) =~= kv_line(xk, bool_text(en)));
    lemma_bool_text(en);
    lemma_literal_kv(st, xk, bool_text(en));
    assert(xk != "Name"@);
    assert(!has_prefix(xk, "Name["@)) by {
        assert(xk.subrange(0, 5)[0] != "Name["@[0]);
    }
    assert(xk != "Exec"@);
    assert(xk != "Hidden"@);
}

proof fn lemma_hidden_line(st: Scan, en: bool)
    requires
        st.group == Some(entry_group()),
    ensures
        plain_line("Hidden="@ + bool_text(!en)),
        ("Hidden="@ + bool_text(!en)).len() > 0,
        step(st, "Hidden="@ + bool_text(!en)) == (Scan {
            model: EntryModel { enabled: en, ..st.model },
            ..st
        }),
{
    reveal_strlit("Hidden=");
    reveal_strlit("Hidden");
    reveal_strlit("Name");
    reveal_strlit("Name[");
    reveal_strlit("Exec");
    reveal_strlit("=");
    let hk = "Hidden"@;
    assert("Hidden="@ + bool_text(!en) =~= kv_line(hk, bool_text(!en)));
    lemma_bool_text(!en);
    lemma_literal_kv(st, hk, bool_text(!en));
    assert(hk != "Name"@);
    assert(!has_prefix(hk, "Name["@)) by {
        assert(hk.subrange(0, 5)[0] != "Name["@[0]);
    }
    assert(hk != "Exec"@) by {
        assert(hk[0] != "Exec"@[0]);
    }
}

/// What a record must hold for its text to read back as the same record.
pub open spec fn fits_format(m: EntryModel) -> bool {
    &&& all_plain(m.preamble)
    &&& forall|i: int| 0 <= i < m.preamble.len() ==> !is_header(trim(#[trigger] m.preamble[i]))
    &&& all_plain(m.comments)
    &&& forall|i: int| 0 <= i < m.comments.len() ==> is_comment(#[trigger] m.comments[i])
    &&& no_newline(m.name) && trim(m.name) == m.name
    &&& no_newline(m.command) && trim(m.command) == m.command
    &&& forall|i: int| 0 <= i < m.localized.len() ==> locale_ok(#[trigger] m.localized[i])
    &&& forall|i: int| 0 <= i < m.extra.len() ==> extra_ok(#[trigger] m.extra[i])
    &&& blocks_ok(m.others)
}

proof fn lemma_localized_plain(l: Seq<(Seq<char>, Seq<char>)>)
    requires
        forall|i: int| 0 <= i < l.len() ==> locale_ok(#[trigger] l[i]),
    ensures
        all_plain(localized_lines(l)),
{
    reveal_strlit("Name[");
    reveal_strlit("]");
    reveal_strlit("]=");
    reveal_strlit("=");
    lemma_localized_lines(l);
    let loc = localized_lines(l);
    assert forall|i: int| 0 <= i < l.len() implies plain_line(#[trigger] loc[i]) by {
        let p = l[i];
        assert(locale_ok(p));
        let k = locale_key(p.0);
        assert("Name["@ + p.0 + "]="@ + p.1 =~= kv_line(k, p.1));
        assert(no_newline(k)) by {
            assert forall|j: int| 0 <= j < k.len() implies k[j] != '\n' by {
                if 5 <= j < k.len() - 1 {
                    assert(k[j] == p.0[j - 5]);
                }
            }
        }
        lemma_plain_kv(k, p.1);
    }
}

proof fn lemma_extra_plain(e: Seq<(Seq<char>, Seq<char>)>)
    requires
        forall|i: int| 0 <= i < e.len() ==> extra_ok(#[trigger] e[i]),
    ensures
        all_plain(extra_lines(e)),
        extra_lines(e).len() == e.len(),
        e.len() > 0 ==> extra_lines(e).last().len() > 0,
{
    assert forall|i: int| 0 <= i < e.len() implies !is_known_key(#[trigger] e[i].0) by {
        assert(extra_ok(e[i]));
    }
    lemma_extra_lines(e);
    let ext = extra_lines(e);
    assert forall|i: int| 0 <= i < ext.len() implies plain_line(#[trigger] ext[i]) by {
        assert(extra_ok(e[i]));
        lemma_plain_kv(e[i].0, e[i].1);
    }
    if e.len() > 0 {
        assert(extra_ok(e[e.len() - 1]));
        lemma_plain_kv(e[e.len() - 1].0, e[e.len() - 1].1);
    }
}

/// The lines from the type marker to the last unrecognized key.
pub open spec fn entry_lines(m: EntryModel) -> Seq<Seq<char>> {
    ((seq!["Type=Application"@, "Name="@ + m.name] + localized_lines(m.localized)) + seq![
        "Exec="@ + m.command,
        "X-GNOME-Autostart-enabled="@ + bool_text(m.enabled),
        "Hidden="@ + bool_text(!m.enabled),
    ]) + extra_lines(m.extra)
}

proof fn lemma_run_entry_lines(st: Scan, m: EntryModel)
    requires
        st.group == Some(entry_group()),
        fits_format(m),
        st.model.localized.len() == 0,
        st.model.extra.len() == 0,
    ensures
        run(st, entry_lines(m)).group == Some(entry_group()),
        run(st, entry_lines(m)).current == st.current,
        run(st, entry_lines(m)).model.name == m.name,
        run(st, entry_lines(m)).model.command == m.command,
        run(st, entry_lines(m)).model.enabled == m.enabled,
        run(st, entry_lines(m)).model.localized == m.localized,
        run(st, entry_lines(m)).model.extra == m.extra,
        run(st, entry_lines(m)).model.others == st.model.others,
        all_plain(entry_lines(m)),
        entry_lines(m).last().len() > 0,
{
    let tl = "Type=Application"@;
    let nl = "Name="@ + m.name;
    let loc = localized_lines(m.localized);
    let el = "Exec="@ + m.command;
    let xl = "X-GNOME-Autostart-enabled="@ + bool_text(m.enabled);
    let dl = "Hidden="@ + bool_text(!m.enabled);
    let ext = extra_lines(m.extra);
    let a = seq![tl, nl];
    let b = seq![el, xl, dl];
    lemma_type_line(st);
    lemma_name_line(st, m.name);
    let s2 = step(st, nl);
    assert(a =~= seq![tl] + seq![nl]);
    lemma_run_concat(st, seq![tl], seq![nl]);
    lemma_run_one(st, tl);
    lemma_run_one(st, nl);
    assert(run(st, a) == s2);
    lemma_run_localized(s2, m.localized);
    lemma_run_concat(st, a, loc);
    let s3 = run(s2, loc);
    assert(s3.model.localized =~= m.localized);
    lemma_exec_line(s3, m.command);
    let s4 = step(s3, el);
    lemma_gnome_line(s4, m.enabled);
    let s5 = step(s4, xl);
    lemma_hidden_line(s5, m.enabled);
    let s6 = step(s5, dl);
    assert(b =~= seq![el] + seq![xl] + seq![dl]);
    lemma_run_concat(s3, seq![el] + seq![xl], seq![dl]);
    lemma_run_concat(s3, seq![el], seq![xl]);
    lemma_run_one(s3, el);
    lemma_run_one(s4, xl);
    lemma_run_one(s5, dl);
    assert(run(s3, b) == s6);
    lemma_run_concat(st, a + loc, b);
    lemma_run_extras(s6, m.extra);
    lemma_run_concat(st, a + loc + b, ext);
    assert(run(st, entry_lines(m)).model.extra =~= m.extra);
    // plain lines
    lemma_localized_plain(m.localized);
    lemma_extra_plain(m.extra);
    assert(all_plain(a));
    assert(all_plain(b));
    lemma_all_plain_concat(a, loc);
    lemma_all_plain_concat(a + loc, b);
    lemma_all_plain_concat(a + loc + b, ext);
    if ext.len() == 0 {
        assert(entry_lines(m).last() == dl);
    } else {
        assert(entry_lines(m).last() == ext.last());
    }
}

/// The lines before the type marker.
pub open spec fn opening_lines(m: EntryModel) -> Seq<Seq<char>> {
    let pre = if m.preamble.len() > 0 && m.preamble.last().len() > 0 {
        m.preamble.push(Seq::<char>::empty())
    } else {
        m.preamble
    };
    pre.push("[Desktop Entry]"@) + m.comments
}

proof fn lemma_run_opening(m: EntryModel)
    requires
        fits_format(m),
    ensures
        run(initial_scan(), opening_lines(m)).group == Some(entry_group()),
        run(initial_scan(), opening_lines(m)).current.len() == 0,
        run(initial_scan(), opening_lines(m)).model.localized.len() == 0,
        run(initial_scan(), opening_lines(m)).model.extra.len() == 0,
        run(initial_scan(), opening_lines(m)).model.others.len() == 0,
        all_plain(opening_lines(m)),
{
    let blank = Seq::<char>::empty();
    let pre = if m.preamble.len() > 0 && m.preamble.last().len() > 0 {
        m.preamble.push(blank)
    } else {
        m.preamble
    };
    let hl = "[Desktop Entry]"@;
    let st0 = initial_scan();
    assert(trim(blank) == blank);
    assert forall|i: int| 0 <= i < pre.len() implies !is_header(trim(#[trigger] pre[i])) && plain_line(pre[i]) by {
        if i < m.preamble.len() {
            assert(pre[i] == m.preamble[i]);
        } else {
            assert(pre[i] == blank);
        }
    }
    lemma_run_preamble(st0, pre);
    let st1 = run(st0, pre);
    lemma_header_line(st1);
    assert(pre.push(hl) =~= pre + seq![hl]);
    lemma_run_concat(st0, pre, seq![hl]);
    lemma_run_one(st1, hl);
    let st2 = step(st1, hl);
    lemma_run_comments(st2, m.comments);
    lemma_run_concat(st0, pre.push(hl), m.comments);
    assert(all_plain(pre));
    assert(all_plain(seq![hl]));
    lemma_all_plain_concat(pre, seq![hl]);
    lemma_all_plain_concat(pre.push(hl), m.comments);
}

/// Writing a record and reading the text back gives the same name, command,
/// enabled state, unrecognized keys, localized names and other sections, for
/// every record whose text the format can carry: no line breaks inside
/// values, values without surrounding white space, unrecognized keys that are
/// neither recognized keys nor comments nor headers, and other sections that
/// begin with their header, each but the last ending in a blank line.
pub proof fn lemma_round_trip(e: StartupEntry)
    requires
        fits_format(e@),
    ensures
        parse_spec(render_spec(e@)).name == e@.name,
        parse_spec(render_spec(e@)).command == e@.command,
        parse_spec(render_spec(e@)).enabled == e@.enabled,
        parse_spec(render_spec(e@)).extra == e@.extra,
        parse_spec(render_spec(e@)).localized == e@.localized,
        parse_spec(render_spec(e@)).others == e@.others,
{
    let m = e@;
    let st0 = initial_scan();
    let open = opening_lines(m);
    let ent = entry_lines(m);
    let head = open + ent;
    assert(head =~= head_lines(m));
    lemma_run_opening(m);
    let st1 = run(st0, open);
    lemma_run_entry_lines(st1, m);
    lemma_run_concat(st0, open, ent);
    let st2 = run(st1, ent);
    lemma_all_plain_concat(open, ent);
    assert(head.last() == ent.last());
    let blank = Seq::<char>::empty();
    let n = m.others.len() as int;
    let sep = if n > 0 {
        seq![blank]
    } else {
        Seq::<Seq<char>>::empty()
    };
    let with_sep = head + sep;
    let oth = other_lines(m.others, n);
    let lines = with_sep + oth;
    assert(lines =~= render_lines(m));
    lemma_run_concat(st0, head, sep);
    let st3 = run(st2, sep);
    if n > 0 {
        lemma_run_one(st2, blank);
        assert(trim(blank) == blank);
    } else {
        assert(run(st2, sep) == st2);
    }
    assert(all_plain(sep)) by {
        assert(trim(blank) == blank);
    }
    lemma_all_plain_concat(head, sep);
    lemma_run_concat(st0, with_sep, oth);
    lemma_other_plain(m.others, n);
    lemma_all_plain_concat(with_sep, oth);
    if n > 0 {
        lemma_other_lines_step(m.others, n);
        assert(block_ok(m.others[n - 1]));
        assert(lines.last() == m.others[n - 1].last());
        lemma_run_others(st3, m.others, n);
        assert(Seq::<Seq<Seq<char>>>::empty() + m.others.subrange(0, n - 1) =~= m.others.subrange(0, n - 1));
        assert(m.others.subrange(0, n - 1).push(m.others[n - 1]) =~= m.others);
    } else {
        assert(oth == Seq::<Seq<char>>::empty());
        assert(lines =~= head);
        assert(m.others =~= Seq::<Seq<Seq<char>>>::empty());
    }
    lemma_lines_of_text(lines);
}

/// No line break or carriage return inside.
pub open spec fn no_break(s: Seq<char>) -> bool {
    forall|i: int| 0 <= i < s.len() ==> s[i] != '\n' && s[i] != '\r'
}

/// None of the lines is a section header.
pub open spec fn no_headers(ls: Seq<Seq<char>>) -> bool {
    forall|i: int| 0 <= i < ls.len() ==> !is_header(trim(#[trigger] ls[i]))
}

proof fn lemma_no_headers_concat(a: Seq<Seq<char>>, b: Seq<Seq<char>>)
    requires
        no_headers(a),
        no_headers(b),
    ensures
        no_headers(a + b),
{
    assert forall|i: int| 0 <= i < (a + b).len() implies !is_header(trim(#[trigger] (a + b)[i])) by {
        if i < a.len() {
            assert((a + b)[i] == a[i]);
        } else {
            assert((a + b)[i] == b[i - a.len()]);
        }
    }
}

proof fn lemma_trim_end_first(s: Seq<char>)
    requires
        s.len() > 0,
        !is_space(s[0]),
    ensures
        trim_end(s).len() > 0,
        trim_end(s)[0] == s[0],
    decreases s.len(),
{
    if is_space(s.last()) {
        assert(s.len() > 1);
        assert(s.drop_last()[0] == s[0]);
        lemma_trim_end_first(s.drop_last());
    }
}

/// A line that begins with a character other than white space and `[` is
/// no header.
proof fn lemma_letter_line(s: Seq<char>)
    requires
        s.len() > 0,
        !is_space(s[0]),
        s[0] != '[',
    ensures
        !is_header(trim(s)),
{
    assert(trim_start(s) == s);
    lemma_trim_end_first(s);
}

proof fn lemma_plain_break(key: Seq<char>, value: Seq<char>)
    requires
        no_break(key),
        no_break(value),
    ensures
        plain_line(kv_line(key, value)),
{
    reveal_strlit("=");
    let line = kv_line(key, value);
    assert forall|i: int| 0 <= i < line.len() implies line[i] != '\n' by {
        if i < key.len() {
            assert(line[i] == key[i]);
        } else if i > key.len() {
            assert(line[i] == value[i - key.len() - 1]);
        }
    }
    if value.len() > 0 {
        assert(line.last() == value[value.len() - 1]);
    }
}

proof fn lemma_run_entry_quiet(st: Scan, ls: Seq<Seq<char>>)
    requires
        st.group == Some(entry_group()),
        no_headers(ls),
    ensures
        run(st, ls).group == Some(entry_group()),
        run(st, ls).current == st.current,
        run(st, ls).model.others == st.model.others,
    decreases ls.len(),
{
    if ls.len() > 0 {
        let prev = ls.drop_last();
        assert forall|i: int| 0 <= i < prev.len() implies !is_header(trim(#[trigger] prev[i])) by {
            assert(prev[i] == ls[i]);
        }
        lemma_run_entry_quiet(st, prev);
        assert(!is_header(trim(ls[ls.len() - 1])));
    }
}

proof fn lemma_localized_loose(l: Seq<(Seq<char>, Seq<char>)>)
    requires
        forall|i: int| 0 <= i < l.len() ==> no_break(#[trigger] l[i].0) && no_break(l[i].1),
    ensures
        all_plain(localized_lines(l)),
        no_headers(localized_lines(l)),
{
    reveal_strlit("Name[");
    reveal_strlit("]");
    reveal_strlit("]=");
    reveal_strlit("=");
    lemma_localized_lines(l);
    let loc = localized_lines(l);
    assert forall|i: int| 0 <= i < l.len() implies plain_line(#[trigger] loc[i]) && !is_header(
        trim(loc[i]),
    ) by {
        let p = l[i];
        assert(no_break(l[i].0));
        assert(no_break(p.0) && no_break(p.1));
        let k = locale_key(p.0);
        assert("Name["@ + p.0 + "]="@ + p.1 =~= kv_line(k, p.1));
        assert(no_break(k)) by {
            assert forall|j: int| 0 <= j < k.len() implies k[j] != '\n' && k[j] != '\r' by {
                if 5 <= j < k.len() - 1 {
                    assert(k[j] == p.0[j - 5]);
                }
            }
        }
        lemma_plain_break(k, p.1);
        assert(kv_line(k, p.1)[0] == 'N');
        lemma_letter_line(kv_line(k, p.1));
    }
}

proof fn lemma_extra_loose(e: Seq<(Seq<char>, Seq<char>)>)
    requires
        forall|i: int|
            0 <= i < e.len() ==> no_break(#[trigger] e[i].0) && no_break(e[i].1) && !is_header(
                trim(kv_line(e[i].0, e[i].1)),
            ),
    ensures
        all_plain(extra_lines(e)),
        no_headers(extra_lines(e)),
        extra_lines(e).len() > 0 ==> extra_lines(e).last().len() > 0,
    decreases e.len(),
{
    if e.len() > 0 {
        let prev = e.drop_last();
        assert forall|i: int| 0 <= i < prev.len() implies no_break(#[trigger] prev[i].0) && no_break(
            prev[i].1,
        ) && !is_header(trim(kv_line(prev[i].0, prev[i].1))) by {
            assert(prev[i] == e[i]);
        }
        lemma_extra_loose(prev);
        let p = e.last();
        assert(no_break(e[e.len() - 1].0));
        if !is_known_key(p.0) {
            lemma_plain_break(p.0, p.1);
            reveal_strlit("=");
            assert(kv_line(p.0, p.1).len() > 0);
            lemma_all_plain_concat(extra_lines(prev), seq![kv_line(p.0, p.1)]);
            lemma_no_headers_concat(extra_lines(prev), seq![kv_line(p.0, p.1)]);
            assert(extra_lines(prev) + seq![kv_line(p.0, p.1)] =~= extra_lines(e));
        }
    }
}

/// What the other sections of a record need for them to read back as
/// themselves.
pub open spec fn sections_fit(m: EntryModel) -> bool {
    &&& all_plain(m.preamble) && no_headers(m.preamble)
    &&& all_plain(m.comments) && no_headers(m.comments)
    &&& no_break(m.name) && no_break(m.command)
    &&& forall|i: int|
        0 <= i < m.localized.len() ==> no_break(#[trigger] m.localized[i].0) && no_break(
            m.localized[i].1,
        )
    &&& forall|i: int|
        0 <= i < m.extra.len() ==> no_break(#[trigger] m.extra[i].0) && no_break(m.extra[i].1)
            && !is_header(trim(kv_line(m.extra[i].0, m.extra[i].1)))
    &&& blocks_ok(m.others)
}

proof fn lemma_entry_lines_loose(st: Scan, m: EntryModel)
    requires
        st.group == Some(entry_group()),
        sections_fit(m),
    ensures
        all_plain(entry_lines(m)),
        no_headers(entry_lines(m)),
        entry_lines(m).last().len() > 0,
{
    reveal_strlit("Name=");
    reveal_strlit("Name");
    reveal_strlit("Exec=");
    reveal_strlit("Exec");
    reveal_strlit("Type=Application");
    reveal_strlit("X-GNOME-Autostart-enabled=");
    reveal_strlit("Hidden=");
    reveal_strlit("=");
    let tl = "Type=Application"@;
    let nl = "Name="@ + m.name;
    let el = "Exec="@ + m.command;
    let xl = "X-GNOME-Autostart-enabled="@ + bool_text(m.enabled);
    let dl = "Hidden="@ + bool_text(!m.enabled);
    lemma_type_line(st);
    lemma_gnome_line(st, m.enabled);
    lemma_hidden_line(st, m.enabled);
    assert(nl =~= kv_line("Name"@, m.name));
    assert(el =~= kv_line("Exec"@, m.command));
    lemma_plain_break("Name"@, m.name);
    lemma_plain_break("Exec"@, m.command);
    assert(tl[0] == 'T' && nl[0] == 'N' && el[0] == 'E' && xl[0] == 'X' && dl[0] == 'H');
    lemma_letter_line(tl);
    lemma_letter_line(nl);
    lemma_letter_line(el);
    lemma_letter_line(xl);
    lemma_letter_line(dl);
    let a = seq![tl, nl];
    let b = seq![el, xl, dl];
    let loc = localized_lines(m.localized);
    let ext = extra_lines(m.extra);
    lemma_localized_loose(m.localized);
    lemma_extra_loose(m.extra);
    assert(all_plain(a) && no_headers(a));
    assert(all_plain(b) && no_headers(b));
    lemma_all_plain_concat(a, loc);
    lemma_all_plain_concat(a + loc, b);
    lemma_all_plain_concat(a + loc + b, ext);
    lemma_no_headers_concat(a, loc);
    lemma_no_headers_concat(a + loc, b);
    lemma_no_headers_concat(a + loc + b, ext);
    if ext.len() == 0 {
        assert(entry_lines(m).last() == dl);
    } else {
        assert(entry_lines(m).last() == ext.last());
    }
}

/// Writing a record and reading the text back gives the same other
/// sections, in order and line for line, for every record whose lines hold
/// no line break or carriage return, whose preamble, comment and
/// unrecognized-key lines are no section headers, and whose other sections
/// begin with their header, hold no other header, and end in a blank line
/// exactly when they are not the last.
pub proof fn lemma_sections_round_trip(e: StartupEntry)
    requires
        sections_fit(e@),
    ensures
        parse_spec(render_spec(e@)).others == e@.others,
{
    let m = e@;
    let st0 = initial_scan();
    let blank = Seq::<char>::empty();
    let pre = if m.preamble.len() > 0 && m.preamble.last().len() > 0 {
        m.preamble.push(blank)
    } else {
        m.preamble
    };
    let hl = "[Desktop Entry]"@;
    assert(trim(blank) == blank);
    assert forall|i: int| 0 <= i < pre.len() implies !is_header(trim(#[trigger] pre[i])) && plain_line(pre[i]) by {
        if i < m.preamble.len() {
            assert(pre[i] == m.preamble[i]);
        } else {
            assert(pre[i] == blank);
        }
    }
    lemma_run_preamble(st0, pre);
    let st1 = run(st0, pre);
    lemma_header_line(st1);
    lemma_run_concat(st0, pre, seq![hl]);
    lemma_run_one(st1, hl);
    let st2 = step(st1, hl);
    assert(st2.model.others.len() == 0 && st2.current.len() == 0);
    let open = opening_lines(m);
    assert(open =~= pre + seq![hl] + m.comments);
    lemma_run_entry_quiet(st2, m.comments);
    lemma_run_concat(st0, pre + seq![hl], m.comments);
    let st3 = run(st0, open);
    lemma_all_plain_concat(pre, seq![hl]);
    lemma_all_plain_concat(pre + seq![hl], m.comments);
    let ent = entry_lines(m);
    lemma_entry_lines_loose(st3, m);
    lemma_run_entry_quiet(st3, ent);
    let head = open + ent;
    assert(head =~= head_lines(m));
    lemma_run_concat(st0, open, ent);
    let st4 = run(st3, ent);
    lemma_all_plain_concat(open, ent);
    assert(head.last() == ent.last());
    let n = m.others.len() as int;
    let sep = if n > 0 {
        seq![blank]
    } else {
        Seq::<Seq<char>>::empty()
    };
    let with_sep = head + sep;
    let oth = other_lines(m.others, n);
    let lines = with_sep + oth;
    assert(lines =~= render_lines(m));
    lemma_run_concat(st0, head, sep);
    let st5 = run(st4, sep);
    assert(no_headers(sep));
    lemma_run_entry_quiet(st4, sep);
    assert(all_plain(sep));
    lemma_all_plain_concat(head, sep);
    lemma_run_concat(st0, with_sep, oth);
    lemma_other_plain(m.others, n);
    lemma_all_plain_concat(with_sep, oth);
    if n > 0 {
        lemma_other_lines_step(m.others, n);
        assert(block_ok(m.others[n - 1]));
        assert(lines.last() == m.others[n - 1].last());
        lemma_run_others(st5, m.others, n);
        assert(Seq::<Seq<Seq<char>>>::empty() + m.others.subrange(0, n - 1) =~= m.others.subrange(0, n - 1));
        assert(m.others.subrange(0, n - 1).push(m.others[n - 1]) =~= m.others);
    } else {
        assert(oth == Seq::<Seq<char>>::empty());
        assert(lines =~= head);
        assert(m.others =~= Seq::<Seq<Seq<char>>>::empty());
    }
    lemma_lines_of_text(lines);
}

} // verus!
