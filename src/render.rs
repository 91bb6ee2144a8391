//! Writing a record back as desktop-entry text, in a fixed layout.
use vstd::prelude::*;
use crate::model::{EntryModel, StartupEntry};
use crate::parse::has_prefix;
use crate::text::{begins_with, chars_of, push_all, push_chars, same_chars, string_of};

verus! {

pub open spec fn bool_text(b: bool) -> Seq<char> {
    if b {
        "true"@
    } else {
        "false"@
    }
}

/// Keys that the record gives a field of its own, and the type marker.
pub open spec fn is_known_key(k: Seq<char>) -> bool {
    k == "Name"@ || k == "Exec"@ || k == "Hidden"@ || k == "X-GNOME-Autostart-enabled"@ || k
        == "Type"@ || has_prefix(k, "Name["@)
}

pub open spec fn localized_lines(l: Seq<(Seq<char>, Seq<char>)>) -> Seq<Seq<char>>
    decreases l.len(),
{
    if l.len() == 0 {
        seq![]
    } else {
        localized_lines(l.drop_last()).push("Name["@ + l.last().0 + "]="@ + l.last().1)
    }
}

/// `key=value` for each unrecognized pair whose key is not a known one.
pub open spec fn extra_lines(e: Seq<(Seq<char>, Seq<char>)>) -> Seq<Seq<char>>
    decreases e.len(),
{
    if e.len() == 0 {
        seq![]
    } else {
        let prev = extra_lines(e.drop_last());
        if is_known_key(e.last().0) {
            prev
        } else {
            prev.push(e.last().0 + "="@ + e.last().1)
        }
    }
}

/// The first `n` other sections, each but the last followed by a blank line
/// unless it is empty or already ends in one.
pub open spec fn other_lines(o: Seq<Seq<Seq<char>>>, n: int) -> Seq<Seq<char>>
    decreases n,
{
    if n <= 0 {
        seq![]
    } else {
        let b = o[n - 1];
        other_lines(o, n - 1) + b + if n != o.len() && b.len() > 0 && b.last().len() > 0 {
            seq![seq![]]
        } else {
            seq![]
        }
    }
}

pub open spec fn head_lines(m: EntryModel) -> Seq<Seq<char>> {
    let pre = if m.preamble.len() > 0 && m.preamble.last().len() > 0 {
        m.preamble.push(seq![])
    } else {
        m.preamble
    };
    (((pre.push("[Desktop Entry]"@) + m.comments).push("Type=Application"@).push(
        "Name="@ + m.name,
    ) + localized_lines(m.localized)).push("Exec="@ + m.command).push(
        "X-GNOME-Autostart-enabled="@ + bool_text(m.enabled),
    ).push("Hidden="@ + bool_text(!m.enabled))) + extra_lines(m.extra)
}

/// The lines of the written file.
pub open spec fn render_lines(m: EntryModel) -> Seq<Seq<char>> {
    let h = head_lines(m);
    let h2 = if m.others.len() > 0 && h.last().len() > 0 {
        h.push(seq![])
    } else {
        h
    };
    h2 + other_lines(m.others, m.others.len() as int)
}

/// Each line followed by a newline.
pub open spec fn terminated(l: Seq<Seq<char>>) -> Seq<char>
    decreases l.len(),
{
    if l.len() == 0 {
        seq![]
    } else {
        terminated(l.drop_last()) + l.last().push('\n')
    }
}

/// Drops every trailing newline.
pub open spec fn trim_newlines(s: Seq<char>) -> Seq<char>
    decreases s.len(),
{
    if s.len() > 0 && s.last() == '\n' {
        trim_newlines(s.drop_last())
    } else {
        s
    }
}

/// The lines joined by newlines, trailing blank lines and newlines dropped,
/// then exactly one newline at the end.
pub open spec fn text_of(l: Seq<Seq<char>>) -> Seq<char> {
    trim_newlines(terminated(l)).push('\n')
}

/// What a record renders to.
pub open spec fn render_spec(m: EntryModel) -> Seq<char> {
    text_of(render_lines(m))
}

fn push_line(lines: &mut Vec<Vec<char>>, l: Vec<char>)
    ensures
        final(lines).deep_view() == old(lines).deep_view().push(l@),
{
    let ghost l0 = l@;
    proof {
        assert(l.deep_view() =~= l@);
    }
    lines.push(l);
    proof {
        assert(final(lines).deep_view() =~= old(lines).deep_view().push(l0));
    }
}

fn push_strings(lines: &mut Vec<Vec<char>>, src: &Vec<String>)
    ensures
        final(lines).deep_view() == old(lines).deep_view() + src.deep_view(),
{
    let ghost prev = lines.deep_view();
    let mut i: usize = 0;
    while i < src.len()
        invariant
            i <= src.len(),
            lines.deep_view() == prev + src.deep_view().subrange(0, i as int),
        decreases src.len() - i,
    {
        push_line(lines, chars_of(src[i].as_str()));
        proof {
            assert(src.deep_view().subrange(0, i + 1) =~= src.deep_view().subrange(
                0,
                i as int,
            ).push(src.deep_view()[i as int]));
        }
        i = i + 1;
    }
    proof {
        assert(src.deep_view().subrange(0, src.len() as int) =~= src.deep_view());
    }
}

fn prefixed(lit: &str, s: &String) -> (r: Vec<char>)
    ensures
        r@ == lit@ + s@,
{
    let mut l = chars_of(lit);
    push_all(&mut l, &chars_of(s.as_str()));
    l
}

fn known_key(k: &Vec<char>) -> (r: bool)
    ensures
        r == is_known_key(k@),
{
    same_chars(k, "Name") || same_chars(k, "Exec") || same_chars(k, "Hidden") || same_chars(
        k,
        "X-GNOME-Autostart-enabled",
    ) || same_chars(k, "Type") || begins_with(k, "Name[")
}

fn render_lines_of(entry: &StartupEntry) -> (r: Vec<Vec<char>>)
    ensures
        r.deep_view() == render_lines(entry@),
{
    let m = Ghost(entry@);
    let mut lines: Vec<Vec<char>> = Vec::new();
    push_strings(&mut lines, &entry.preamble);
    proof {
        assert(lines.deep_view() =~= m@.preamble);
    }
    let np = entry.preamble.len();
    if np > 0 && entry.preamble[np - 1].as_str().unicode_len() > 0 {
        push_line(&mut lines, Vec::new());
        proof {
            assert(lines.deep_view() =~= m@.preamble.push(seq![]));
        }
    }
    push_line(&mut lines, chars_of("[Desktop Entry]"));
    push_strings(&mut lines, &entry.entry_comments);
    push_line(&mut lines, chars_of("Type=Application"));
    push_line(&mut lines, prefixed("Name=", &entry.name));
    let ghost before_loc = lines.deep_view();
    let mut i: usize = 0;
    while i < entry.localized_names.len()
        invariant
            i <= entry.localized_names.len(),
            m@ == entry@,
            lines.deep_view() == before_loc + localized_lines(
                m@.localized.subrange(0, i as int),
            ),
        decreases entry.localized_names.len() - i,
    {
        let mut l = chars_of("Name[");
        push_all(&mut l, &chars_of(entry.localized_names[i].0.as_str()));
        push_chars(&mut l, "]=");
        push_all(&mut l, &chars_of(entry.localized_names[i].1.as_str()));
        push_line(&mut lines, l);
        proof {
            let s = m@.localized.subrange(0, i + 1);
            assert(s.drop_last() =~= m@.localized.subrange(0, i as int));
            assert(s.last() == m@.localized[i as int]);
        }
        i = i + 1;
    }
    proof {
        assert(m@.localized.subrange(0, m@.localized.len() as int) =~= m@.localized);
    }
    push_line(&mut lines, prefixed("Exec=", &entry.command));
    let mut l = chars_of("X-GNOME-Autostart-enabled=");
    push_chars(&mut l, if entry.enabled { "true" } else { "false" });
    push_line(&mut lines, l);
    let mut l = chars_of("Hidden=");
    push_chars(&mut l, if entry.enabled { "false" } else { "true" });
    push_line(&mut lines, l);
    let ghost before_extra = lines.deep_view();
    let mut i: usize = 0;
    while i < entry.extra.len()
        invariant
            i <= entry.extra.len(),
            m@ == entry@,
            lines.deep_view() == before_extra + extra_lines(m@.extra.subrange(0, i as int)),
        decreases entry.extra.len() - i,
    {
        let k = chars_of(entry.extra[i].0.as_str());
        proof {
            let s = m@.extra.subrange(0, i + 1);
            assert(s.drop_last() =~= m@.extra.subrange(0, i as int));
            assert(s.last() == m@.extra[i as int]);
        }
        if !known_key(&k) {
            let mut l = k;
            push_chars(&mut l, "=");
            push_all(&mut l, &chars_of(entry.extra[i].1.as_str()));
            push_line(&mut lines, l);
        }
        i = i + 1;
    }
    proof {
        assert(m@.extra.subrange(0, m@.extra.len() as int) =~= m@.extra);
        assert(lines.deep_view() =~= head_lines(m@));
    }
    let no = entry.other_groups.len();
    proof {
        assert(lines[lines.len() - 1].deep_view() =~= lines[lines.len() - 1]@);
    }
    if no > 0 && lines[lines.len() - 1].len() > 0 {
        push_line(&mut lines, Vec::new());
    }
    let ghost before_other = lines.deep_view();
    let mut i: usize = 0;
    while i < no
        invariant
            i <= no == entry.other_groups.len(),
            m@ == entry@,
            lines.deep_view() == before_other + other_lines(m@.others, i as int),
        decreases no - i,
    {
        let block = &entry.other_groups[i];
        push_strings(&mut lines, block);
        let nb = block.len();
        if i + 1 != no && nb > 0 && block[nb - 1].as_str().unicode_len() > 0 {
            push_line(&mut lines, Vec::new());
        }
        proof {
            assert(block.deep_view() == m@.others[i as int]);
            assert(lines.deep_view() =~= before_other + other_lines(m@.others, i + 1));
        }
        i = i + 1;
    }
    lines
}

/// The text of a record in the canonical layout: preamble, entry header,
/// entry comments, the type marker, the recognized keys, the unrecognized
/// keys, then the other sections; the text ends in exactly one newline.
pub fn render_desktop_entry(entry: &StartupEntry) -> (r: String)
    ensures
        r@ == render_spec(entry@),
        r@.len() > 0,
        r@.last() == '\n',
        r@.len() >= 2 ==> r@[r@.len() - 2] != '\n',
{
    let lines = render_lines_of(entry);
    let ghost l = lines.deep_view();
    let n = lines.len();
    let mut out: Vec<char> = Vec::new();
    let mut i: usize = 0;
    while i < n
        invariant
            i <= n == lines.len(),
            l == lines.deep_view(),
            out@ == terminated(l.subrange(0, i as int)),
        decreases n - i,
    {
        push_all(&mut out, &lines[i]);
        out.push('\n');
        proof {
            assert(lines[i as int].deep_view() =~= lines[i as int]@);
            assert(l.subrange(0, i + 1).drop_last() =~= l.subrange(0, i as int));
        }
        i = i + 1;
    }
    proof {
        assert(l.subrange(0, n as int) =~= l);
    }
    let ghost full = out@;
    while out.len() > 0 && out[out.len() - 1] == '\n'
        invariant
            trim_newlines(full) == trim_newlines(out@),
        decreases out.len(),
    {
        let ghost before = out@;
        out.pop();
        proof {
            assert(out@ =~= before.drop_last());
        }
    }
    out.push('\n');
    string_of(&out)
}

} // verus!
