//! Parsing desktop-entry text into a record.
//!
//! The text is cut into lines, and a state machine takes them one by one:
//! before the first section header, inside the entry section, inside another
//! section.
use vstd::prelude::*;
use crate::model::{EntryModel, StartupEntry, StartupSource};
use crate::text::{
    begins_with, bracket_stripped, copy_range, chars_of, is_space, same_chars, string_of,
    strip_brackets, trim, trimmed,
};

verus! {

/// Drops one trailing carriage return.
pub open spec fn strip_cr(l: Seq<char>) -> Seq<char> {
    if l.len() > 0 && l.last() == '\r' {
        l.drop_last()
    } else {
        l
    }
}

/// The lines completed so far and the unfinished one, after reading `s`.
pub open spec fn split_acc(s: Seq<char>) -> (Seq<Seq<char>>, Seq<char>)
    decreases s.len(),
{
    if s.len() == 0 {
        (seq![], seq![])
    } else {
        let prev = split_acc(s.drop_last());
        if s.last() == '\n' {
            (prev.0.push(strip_cr(prev.1)), seq![])
        } else {
            (prev.0, prev.1.push(s.last()))
        }
    }
}

/// The lines of a text as `str::lines` gives them: cut at each `\n`, a `\r`
/// before it dropped, a last line without `\n` kept when it is not empty.
pub open spec fn lines_of(s: Seq<char>) -> Seq<Seq<char>> {
    let acc = split_acc(s);
    if acc.1.len() > 0 {
        acc.0.push(acc.1)
    } else {
        acc.0
    }
}

pub open spec fn entry_group() -> Seq<char> {
    "Desktop Entry"@
}

/// A trimmed line of the form `[...]`.
pub open spec fn is_header(t: Seq<char>) -> bool {
    t.len() > 0 && t[0] == '[' && t.last() == ']'
}

/// The state of the scan between two lines.
pub struct Scan {
    pub model: EntryModel,
    /// The section being read; `None` before the first header.
    pub group: Option<Seq<char>>,
    /// The lines of the other section being read.
    pub current: Seq<Seq<char>>,
}

pub open spec fn initial_scan() -> Scan {
    Scan {
        model: EntryModel {
            name: "Unnamed"@,
            command: seq![],
            enabled: true,
            extra: seq![],
            localized: seq![],
            comments: seq![],
            preamble: seq![],
            others: seq![],
        },
        group: None,
        current: seq![],
    }
}

/// Ends the open section: another section's lines become a block, lines
/// before the first header join the preamble.
pub open spec fn close_group(st: Scan) -> Scan {
    match st.group {
        Some(g) => Scan {
            model: EntryModel {
                others: if g != entry_group() && st.current.len() > 0 {
                    st.model.others.push(st.current)
                } else {
                    st.model.others
                },
                ..st.model
            },
            current: seq![],
            ..st
        },
        None => Scan {
            model: EntryModel { preamble: st.model.preamble + st.current, ..st.model },
            current: seq![],
            ..st
        },
    }
}

/// `k` is the position of the first `=` in `s`.
pub open spec fn first_eq_at(s: Seq<char>, k: int) -> bool {
    0 <= k < s.len() && s[k] == '=' && forall|j: int| 0 <= j < k ==> s[j] != '='
}

pub open spec fn has_prefix(s: Seq<char>, p: Seq<char>) -> bool {
    p.len() <= s.len() && s.subrange(0, p.len() as int) == p
}

/// The record after reading `key=value` in the entry section.
pub open spec fn assign(m: EntryModel, key: Seq<char>, value: Seq<char>) -> EntryModel {
    if key == "Name"@ {
        EntryModel { name: value, ..m }
    } else if has_prefix(key, "Name["@) {
        let rest = key.subrange("Name["@.len() as int, key.len() as int);
        if rest.len() > 0 && rest.last() == ']' {
            EntryModel { localized: m.localized.push((rest.drop_last(), value)), ..m }
        } else {
            m
        }
    } else if key == "Exec"@ {
        EntryModel { command: value, ..m }
    } else if key == "Hidden"@ {
        EntryModel { enabled: value != "true"@, ..m }
    } else if key == "X-GNOME-Autostart-enabled"@ {
        EntryModel { enabled: value == "true"@, ..m }
    } else if key == "Type"@ {
        m
    } else {
        EntryModel { extra: m.extra.push((key, value)), ..m }
    }
}

/// The record after reading a line of the entry section that is no header.
pub open spec fn entry_line(m: EntryModel, line: Seq<char>) -> EntryModel {
    let t = trim(line);
    if t.len() == 0 || t[0] == '#' {
        EntryModel { comments: m.comments.push(line), ..m }
    } else if exists|k: int| first_eq_at(line, k) {
        let k = choose|k: int| first_eq_at(line, k);
        assign(
            m,
            trim(line.subrange(0, k)),
            trim(line.subrange(k + 1, line.len() as int)),
        )
    } else {
        m
    }
}

/// One step of the scan.
pub open spec fn step(st: Scan, line: Seq<char>) -> Scan {
    let t = trim(line);
    if is_header(t) {
        let st1 = close_group(st);
        let g = strip_brackets(t);
        Scan {
            group: Some(g),
            current: if g != entry_group() {
                seq![line]
            } else {
                seq![]
            },
            ..st1
        }
    } else {
        match st.group {
            Some(g) => if g == entry_group() {
                Scan { model: entry_line(st.model, line), ..st }
            } else {
                Scan { current: st.current.push(line), ..st }
            },
            None => Scan {
                model: EntryModel { preamble: st.model.preamble.push(line), ..st.model },
                ..st
            },
        }
    }
}

/// The scan after reading `lines` from `st`.
pub open spec fn run(st: Scan, lines: Seq<Seq<char>>) -> Scan
    decreases lines.len(),
{
    if lines.len() == 0 {
        st
    } else {
        step(run(st, lines.drop_last()), lines.last())
    }
}

/// What a text parses to.
pub open spec fn parse_spec(text: Seq<char>) -> EntryModel {
    close_group(run(initial_scan(), lines_of(text))).model
}

struct Scanner {
    name: Vec<char>,
    command: Vec<char>,
    enabled: bool,
    extra: Vec<(String, String)>,
    localized: Vec<(String, String)>,
    comments: Vec<String>,
    preamble: Vec<String>,
    others: Vec<Vec<String>>,
    group: Option<Vec<char>>,
    current: Vec<String>,
}

impl View for Scanner {
    type V = Scan;

    closed spec fn view(&self) -> Scan {
        Scan {
            model: EntryModel {
                name: self.name@,
                command: self.command@,
                enabled: self.enabled,
                extra: self.extra.deep_view(),
                localized: self.localized.deep_view(),
                comments: self.comments.deep_view(),
                preamble: self.preamble.deep_view(),
                others: self.others.deep_view(),
            },
            group: match self.group {
                Some(g) => Some(g@),
                None => None,
            },
            current: self.current.deep_view(),
        }
    }
}

/// Position of the first `=` in `s`.
fn find_eq(s: &Vec<char>) -> (r: Option<usize>)
    ensures
        r matches Some(k) ==> first_eq_at(s@, k as int),
        r is None ==> forall|j: int| 0 <= j < s.len() ==> s@[j] != '=',
{
    let mut i: usize = 0;
    while i < s.len()
        invariant
            i <= s.len(),
            forall|j: int| 0 <= j < i ==> s@[j] != '=',
        decreases s.len() - i,
    {
        if s[i] == '=' {
            return Some(i);
        }
        i = i + 1;
    }
    None
}

fn push_text(v: &mut Vec<String>, line: &Vec<char>)
    ensures
        final(v).deep_view() == old(v).deep_view().push(line@),
{
    let s = string_of(line);
    v.push(s);
    proof {
        assert(final(v).deep_view() =~= old(v).deep_view().push(line@));
    }
}

fn push_pair(v: &mut Vec<(String, String)>, a: &Vec<char>, b: &Vec<char>)
    ensures
        final(v).deep_view() == old(v).deep_view().push((a@, b@)),
{
    let p = (string_of(a), string_of(b));
    v.push(p);
    proof {
        assert(final(v).deep_view() =~= old(v).deep_view().push((a@, b@)));
    }
}

fn append_lines(dst: &mut Vec<String>, src: &Vec<String>)
    ensures
        final(dst).deep_view() == old(dst).deep_view() + src.deep_view(),
{
    let ghost prev = dst.deep_view();
    let mut i: usize = 0;
    while i < src.len()
        invariant
            i <= src.len(),
            dst.deep_view() == prev + src.deep_view().subrange(0, i as int),
        decreases src.len() - i,
    {
        let ghost before = dst.deep_view();
        dst.push(src[i].clone());
        proof {
            assert(dst.deep_view() =~= before.push(src.deep_view()[i as int]));
            assert(src.deep_view().subrange(0, i + 1) =~= src.deep_view().subrange(
                0,
                i as int,
            ).push(src.deep_view()[i as int]));
        }
        i = i + 1;
    }
    proof {
        assert(src.deep_view().subrange(0, src.len() as int) =~= src.deep_view());
    }
}

impl Scanner {
    fn new() -> (r: Scanner)
        ensures
            r@ == initial_scan(),
    {
        let r = Scanner {
            name: chars_of("Unnamed"),
            command: Vec::new(),
            enabled: true,
            extra: Vec::new(),
            localized: Vec::new(),
            comments: Vec::new(),
            preamble: Vec::new(),
            others: Vec::new(),
            group: None,
            current: Vec::new(),
        };
        proof {
            assert(r@.model.extra =~= seq![]);
            assert(r@.model.localized =~= seq![]);
            assert(r@.model.comments =~= seq![]);
            assert(r@.model.preamble =~= seq![]);
            assert(r@.model.others =~= seq![]);
            assert(r@.current =~= seq![]);
            assert(r@.model.command =~= seq![]);
        }
        r
    }

    fn close_group(&mut self)
        ensures
            final(self)@ == close_group(old(self)@),
    {
        let mut cur: Vec<String> = Vec::new();
        std::mem::swap(&mut cur, &mut self.current);
        proof {
            assert(self.current.deep_view() =~= seq![]);
            assert(cur.deep_view() == old(self)@.current);
        }
        match &self.group {
            Some(g) => {
                if !same_chars(g, "Desktop Entry") && cur.len() > 0 {
                    let ghost prev = self.others.deep_view();
                    self.others.push(cur);
                    proof {
                        assert(self.others.deep_view() =~= prev.push(old(self)@.current));
                    }
                }
            },
            None => {
                append_lines(&mut self.preamble, &cur);
            },
        }
    }

    fn assign(&mut self, key: &Vec<char>, value: &Vec<char>)
        requires
            old(self)@.group == Some(entry_group()),
        ensures
            final(self)@ == (Scan { model: assign(old(self)@.model, key@, value@), ..old(self)@ }),
    {
        if same_chars(key, "Name") {
            self.name = copy_range(value, 0, value.len());
            proof {
                assert(value@.subrange(0, value@.len() as int) =~= value@);
            }
        } else if begins_with(key, "Name[") {
            let n = "Name[".unicode_len();
            let rest = copy_range(key, n, key.len());
            if rest.len() > 0 && rest[rest.len() - 1] == ']' {
                let locale = copy_range(&rest, 0, rest.len() - 1);
                proof {
                    assert(locale@ =~= rest@.drop_last());
                }
                push_pair(&mut self.localized, &locale, value);
            }
        } else if same_chars(key, "Exec") {
            self.command = copy_range(value, 0, value.len());
            proof {
                assert(value@.subrange(0, value@.len() as int) =~= value@);
            }
        } else if same_chars(key, "Hidden") {
            self.enabled = !same_chars(value, "true");
        } else if same_chars(key, "X-GNOME-Autostart-enabled") {
            self.enabled = same_chars(value, "true");
        } else if same_chars(key, "Type") {
        } else {
            push_pair(&mut self.extra, key, value);
        }
    }

    fn step(&mut self, line: &Vec<char>)
        ensures
            final(self)@ == step(old(self)@, line@),
    {
        let t = trimmed(line);
        if t.len() > 0 && t[0] == '[' && t[t.len() - 1] == ']' {
            self.close_group();
            let g = bracket_stripped(&t);
            if !same_chars(&g, "Desktop Entry") {
                push_text(&mut self.current, line);
                proof {
                    assert(self.current.deep_view() =~= seq![line@]);
                }
            }
            self.group = Some(g);
            return;
        }
        let in_entry = match &self.group {
            Some(g) => Some(same_chars(g, "Desktop Entry")),
            None => None,
        };
        match in_entry {
            Some(true) => {
                if t.len() == 0 || t[0] == '#' {
                    push_text(&mut self.comments, line);
                    return;
                }
                match find_eq(line) {
                    Some(k) => {
                        proof {
                            assert(first_eq_at(line@, k as int));
                            assert(k < line.len());
                        }
                        let kpart = copy_range(line, 0, k);
                        let vpart = copy_range(line, k + 1, line.len());
                        let key = trimmed(&kpart);
                        let value = trimmed(&vpart);
                        proof {
                            assert(first_eq_at(line@, k as int));
                            let c = choose|c: int| first_eq_at(line@, c);
                            assert(c == k) by {
                                if c < k {
                                    assert(line@[c] != '=');
                                } else if k < c {
                                    assert(line@[k as int] != '=');
                                }
                            }
                        }
                        self.assign(&key, &value);
                    },
                    None => {},
                }
            },
            Some(false) => {
                push_text(&mut self.current, line);
            },
            None => {
                push_text(&mut self.preamble, line);
            },
        }
    }
}

/// Parses the text of a desktop-entry file into a record with the given
/// source and path. Malformed lines are skipped; nothing fails.
pub fn parse_desktop_text(content: &str, source: StartupSource, path: Option<Vec<u8>>) -> (r:
    StartupEntry)
    ensures
        r@ == parse_spec(content@),
        r.source == source,
        r.path == path,
{
    let text = chars_of(content);
    let mut sc = Scanner::new();
    let mut cur: Vec<char> = Vec::new();
    let mut i: usize = 0;
    while i < text.len()
        invariant
            i <= text.len(),
            text@ == content@,
            sc@ == run(initial_scan(), split_acc(text@.subrange(0, i as int)).0),
            cur@ == split_acc(text@.subrange(0, i as int)).1,
        decreases text.len() - i,
    {
        let c = text[i];
        proof {
            assert(text@.subrange(0, i + 1).drop_last() =~= text@.subrange(0, i as int));
        }
        if c == '\n' {
            let line = if cur.len() > 0 && cur[cur.len() - 1] == '\r' {
                copy_range(&cur, 0, cur.len() - 1)
            } else {
                copy_range(&cur, 0, cur.len())
            };
            proof {
                assert(line@ =~= strip_cr(cur@));
                let done = split_acc(text@.subrange(0, i as int)).0;
                assert(done.push(line@).drop_last() =~= done);
            }
            sc.step(&line);
            cur = Vec::new();
            proof {
                assert(cur@ =~= seq![]);
            }
        } else {
            cur.push(c);
        }
        i = i + 1;
    }
    proof {
        assert(text@.subrange(0, text.len() as int) =~= text@);
    }
    if cur.len() > 0 {
        proof {
            let done = split_acc(text@).0;
            assert(done.push(cur@).drop_last() =~= done);
        }
        sc.step(&cur);
    }
    sc.close_group();
    StartupEntry {
        name: string_of(&sc.name),
        command: string_of(&sc.command),
        enabled: sc.enabled,
        source,
        path,
        extra: sc.extra,
        localized_names: sc.localized,
        entry_comments: sc.comments,
        preamble: sc.preamble,
        other_groups: sc.others,
    }
}

} // verus!
