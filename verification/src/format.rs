//! The `lion.toml` configuration format: the grammar of a configuration
//! document, the canonical text of a configuration value, and the verified
//! serializer.
//!
//! A document is a sequence of lines. After trimming, a line is blank, a
//! comment, a `[table]` header, or `key = value`, where a value is a
//! quoted string or a bracketed list of quoted strings. The `[pkg]` table
//! takes `name`, `description` and `long_description`; the `[bin]` table
//! takes `files`, `out_dir` and `out_file`. `pkg.name` and `bin.files` are
//! required; everything else is optional, and unrecognized keys and tables
//! are ignored. A malformed line, a duplicate key, or a value of the wrong
//! shape fails the whole document.

use vstd::prelude::*;
use vstd::string::StringExecFns;

use crate::config::{BinView, Config, ConfigView, PkgView};
use crate::text::{find_char, is_space, join_lines, split_lines, trimmed};

verus! {

/// No occurrence of `c` anywhere in `s`.
pub open spec fn no_char(s: Seq<char>, c: char) -> bool {
    forall|i: int| 0 <= i < s.len() ==> s[i] != c
}

/// Text that a quoted string of the format can carry: nothing that the
/// quoting itself uses and no line break.
pub open spec fn plain_text(s: Seq<char>) -> bool {
    no_char(s, '"') && no_char(s, '\\') && no_char(s, '\n')
}

/// Text that a list element can carry: plain text without the list
/// separator.
pub open spec fn plain_item(s: Seq<char>) -> bool {
    plain_text(s) && no_char(s, ',')
}

/// A configuration value whose every text field survives the format.
pub open spec fn serializable(c: ConfigView) -> bool {
    &&& plain_text(c.pkg.name)
    &&& (c.pkg.description matches Some(d) ==> plain_text(d))
    &&& (c.pkg.long_description matches Some(d) ==> plain_text(d))
    &&& (forall|i: int| 0 <= i < c.bin.files.len() ==> plain_item(#[trigger] c.bin.files[i]))
    &&& (c.bin.out_dir matches Some(d) ==> plain_text(d))
    &&& (c.bin.out_file matches Some(d) ==> plain_text(d))
}

// ------------------------------------------------------------------
// Parsing, at the specification level.
// ------------------------------------------------------------------
/// The string carried by a quoted value, when the (pre-trimmed) text is
/// one.
pub open spec fn parse_quoted(t: Seq<char>) -> Option<Seq<char>> {
    if t.len() >= 2 && t[0] == '"' && t[t.len() - 1] == '"' {
        let mid = t.subrange(1, t.len() - 1);
        if no_char(mid, '"') && no_char(mid, '\\') {
            Some(mid)
        } else {
            None
        }
    } else {
        None
    }
}

/// The strings carried by a non-empty comma-separated run of quoted
/// values, each trimmed on its own.
pub open spec fn parse_items(t: Seq<char>) -> Option<Seq<Seq<char>>>
    decreases t.len(),
    via parse_items_decreases
{
    let i = find_char(t, ',');
    if i == t.len() {
        match parse_quoted(trimmed(t)) {
            Some(x) => Some(seq![x]),
            None => None,
        }
    } else {
        match parse_quoted(trimmed(t.subrange(0, i as int))) {
            Some(x) => match parse_items(t.subrange(i as int + 1, t.len() as int)) {
                Some(r) => Some(seq![x] + r),
                None => None,
            },
            None => None,
        }
    }
}

#[via_fn]
proof fn parse_items_decreases(t: Seq<char>) {
    crate::text::lemma_find_char_le(t, ',');
}

/// The strings carried by a bracketed list, when the (pre-trimmed) text is
/// one.
pub open spec fn parse_list(t: Seq<char>) -> Option<Seq<Seq<char>>> {
    if t.len() >= 2 && t[0] == '[' && t[t.len() - 1] == ']' {
        let inner = trimmed(t.subrange(1, t.len() - 1));
        if inner.len() == 0 {
            Some(Seq::empty())
        } else {
            parse_items(inner)
        }
    } else {
        None
    }
}

/// What one raw line of a document is.
pub enum LineKind {
    /// Nothing but whitespace, or a comment.
    Blank,
    /// A `[table]` header, carrying the trimmed table name.
    Header(Seq<char>),
    /// A `key = value` line, carrying the trimmed key and the trimmed,
    /// still unparsed value text.
    KeyRest(Seq<char>, Seq<char>),
    /// None of the above.
    Bad,
}

/// Classifies one raw line.
pub open spec fn classify_line(raw: Seq<char>) -> LineKind {
    let t = trimmed(raw);
    if t.len() == 0 || t[0] == '#' {
        LineKind::Blank
    } else if t[0] == '[' {
        if t.len() >= 2 && t[t.len() - 1] == ']' {
            let h = trimmed(t.subrange(1, t.len() - 1));
            if h.len() > 0 {
                LineKind::Header(h)
            } else {
                LineKind::Bad
            }
        } else {
            LineKind::Bad
        }
    } else {
        let i = find_char(t, '=');
        if i == t.len() {
            LineKind::Bad
        } else {
            let k = trimmed(t.subrange(0, i as int));
            let v = trimmed(t.subrange(i as int + 1, t.len() as int));
            if k.len() == 0 || v.len() == 0 {
                LineKind::Bad
            } else {
                LineKind::KeyRest(k, v)
            }
        }
    }
}

/// Which table the lines being read currently belong to.
#[derive(Clone, Copy, Debug, PartialEq, Eq)]
pub enum TableKind {
    /// Before any header.
    TopLevel,
    /// Inside `[pkg]`.
    PkgTable,
    /// Inside `[bin]`.
    BinTable,
    /// Inside a table this format does not know; its keys are ignored.
    OtherTable,
}

/// The state of a document read: the fields seen so far, the current
/// table, and whether the document has already failed.
#[verifier::ext_equal]
pub struct ParseState {
    pub table: TableKind,
    pub name: Option<Seq<char>>,
    pub description: Option<Seq<char>>,
    pub long_description: Option<Seq<char>>,
    pub files: Option<Seq<Seq<char>>>,
    pub out_dir: Option<Seq<char>>,
    pub out_file: Option<Seq<char>>,
    pub failed: bool,
}

pub open spec fn init_state() -> ParseState {
    ParseState {
        table: TableKind::TopLevel,
        name: None,
        description: None,
        long_description: None,
        files: None,
        out_dir: None,
        out_file: None,
        failed: false,
    }
}

pub open spec fn key_name() -> Seq<char> {
    seq!['n', 'a', 'm', 'e']
}

pub open spec fn key_description() -> Seq<char> {
    seq!['d', 'e', 's', 'c', 'r', 'i', 'p', 't', 'i', 'o', 'n']
}

pub open spec fn key_long_description() -> Seq<char> {
    seq!['l', 'o', 'n', 'g', '_'] + key_description()
}

pub open spec fn key_files() -> Seq<char> {
    seq!['f', 'i', 'l', 'e', 's']
}

pub open spec fn key_out_dir() -> Seq<char> {
    seq!['o', 'u', 't', '_', 'd', 'i', 'r']
}

pub open spec fn key_out_file() -> Seq<char> {
    seq!['o', 'u', 't', '_', 'f', 'i', 'l', 'e']
}

pub open spec fn table_pkg() -> Seq<char> {
    seq!['p', 'k', 'g']
}

pub open spec fn table_bin() -> Seq<char> {
    seq!['b', 'i', 'n']
}

pub open spec fn fail_state(st: ParseState) -> ParseState {
    ParseState { failed: true, ..st }
}

/// Reads one `key = value` line inside `[pkg]`.
pub open spec fn pkg_key_step(st: ParseState, k: Seq<char>, v: Seq<char>) -> ParseState {
    if k == key_name() {
        match parse_quoted(v) {
            Some(x) => if st.name is None {
                ParseState { name: Some(x), ..st }
            } else {
                fail_state(st)
            },
            None => fail_state(st),
        }
    } else if k == key_description() {
        match parse_quoted(v) {
            Some(x) => if st.description is None {
                ParseState { description: Some(x), ..st }
            } else {
                fail_state(st)
            },
            None => fail_state(st),
        }
    } else if k == key_long_description() {
        match parse_quoted(v) {
            Some(x) => if st.long_description is None {
                ParseState { long_description: Some(x), ..st }
            } else {
                fail_state(st)
            },
            None => fail_state(st),
        }
    } else {
        st
    }
}

/// Reads one `key = value` line inside `[bin]`.
pub open spec fn bin_key_step(st: ParseState, k: Seq<char>, v: Seq<char>) -> ParseState {
    if k == key_files() {
        match parse_list(v) {
            Some(fs) => if st.files is None {
                ParseState { files: Some(fs), ..st }
            } else {
                fail_state(st)
            },
            None => fail_state(st),
        }
    } else if k == key_out_dir() {
        match parse_quoted(v) {
            Some(x) => if st.out_dir is None {
                ParseState { out_dir: Some(x), ..st }
            } else {
                fail_state(st)
            },
            None => fail_state(st),
        }
    } else if k == key_out_file() {
        match parse_quoted(v) {
            Some(x) => if st.out_file is None {
                ParseState { out_file: Some(x), ..st }
            } else {
                fail_state(st)
            },
            None => fail_state(st),
        }
    } else {
        st
    }
}

/// Reads one raw line. A failed state absorbs everything after it.
pub open spec fn state_step(st: ParseState, raw: Seq<char>) -> ParseState {
    if st.failed {
        st
    } else {
        match classify_line(raw) {
            LineKind::Blank => st,
            LineKind::Header(h) => if h == table_pkg() {
                ParseState { table: TableKind::PkgTable, ..st }
            } else if h == table_bin() {
                ParseState { table: TableKind::BinTable, ..st }
            } else {
                ParseState { table: TableKind::OtherTable, ..st }
            },
            LineKind::KeyRest(k, v) => match st.table {
                TableKind::PkgTable => pkg_key_step(st, k, v),
                TableKind::BinTable => bin_key_step(st, k, v),
                _ => st,
            },
            LineKind::Bad => fail_state(st),
        }
    }
}

/// Reads a sequence of raw lines, left to right.
pub open spec fn fold_lines(st: ParseState, ls: Seq<Seq<char>>) -> ParseState
    decreases ls.len(),
{
    if ls.len() == 0 {
        st
    } else {
        fold_lines(state_step(st, ls[0]), ls.drop_first())
    }
}

/// The configuration a finished read denotes: none when the read failed or
/// a required field (`pkg.name`, `bin.files`) never appeared.
pub open spec fn finish_state(st: ParseState) -> Option<ConfigView> {
    if st.failed {
        None
    } else {
        match (st.name, st.files) {
            (Some(n), Some(fs)) => Some(
                ConfigView {
                    pkg: PkgView {
                        name: n,
                        description: st.description,
                        long_description: st.long_description,
                    },
                    bin: BinView { files: fs, out_dir: st.out_dir, out_file: st.out_file },
                },
            ),
            _ => None,
        }
    }
}

/// The configuration denoted by a whole document, if any.
pub open spec fn parse_config_text(s: Seq<char>) -> Option<ConfigView> {
    finish_state(fold_lines(init_state(), split_lines(s)))
}

// ------------------------------------------------------------------
// The canonical text of a configuration value.
// ------------------------------------------------------------------
/// `v` wrapped in quotes.
pub open spec fn quoted(v: Seq<char>) -> Seq<char> {
    seq!['"'] + v + seq!['"']
}

/// A `key = value` line.
pub open spec fn kv_line(k: Seq<char>, vt: Seq<char>) -> Seq<char> {
    k + seq![' ', '=', ' '] + vt
}

/// The elements of a list, quoted and comma-separated.
pub open spec fn items_text(fs: Seq<Seq<char>>) -> Seq<char>
    decreases fs.len(),
{
    if fs.len() == 0 {
        Seq::empty()
    } else if fs.len() == 1 {
        quoted(fs[0])
    } else {
        quoted(fs[0]) + seq![',', ' '] + items_text(fs.drop_first())
    }
}

/// A bracketed list of quoted elements.
pub open spec fn list_text(fs: Seq<Seq<char>>) -> Seq<char> {
    seq!['['] + items_text(fs) + seq![']']
}

/// The line an optional string field serializes to: one `key = "value"`
/// line when present, no line at all when absent.
pub open spec fn opt_line(k: Seq<char>, o: Option<Seq<char>>) -> Seq<Seq<char>> {
    match o {
        Some(v) => seq![kv_line(k, quoted(v))],
        None => Seq::empty(),
    }
}

/// The `[pkg]` section of the canonical document.
pub open spec fn pkg_lines(c: ConfigView) -> Seq<Seq<char>> {
    seq![seq!['[', 'p', 'k', 'g', ']']] + seq![kv_line(key_name(), quoted(c.pkg.name))]
        + opt_line(key_description(), c.pkg.description) + opt_line(
        key_long_description(),
        c.pkg.long_description,
    )
}

/// The `[bin]` section of the canonical document, set off by a blank line.
pub open spec fn bin_lines(c: ConfigView) -> Seq<Seq<char>> {
    seq![Seq::<char>::empty()] + seq![seq!['[', 'b', 'i', 'n', ']']] + seq![
        kv_line(key_files(), list_text(c.bin.files)),
    ] + opt_line(key_out_dir(), c.bin.out_dir) + opt_line(key_out_file(), c.bin.out_file)
}

/// The lines of the canonical document of a configuration value.
pub open spec fn lines_of(c: ConfigView) -> Seq<Seq<char>> {
    pkg_lines(c) + bin_lines(c)
}

/// The canonical document of a configuration value, one line after the
/// other, each ended by a newline.
pub open spec fn config_text(c: ConfigView) -> Seq<char> {
    join_lines(lines_of(c))
}

/// Joining distributes over concatenation of line sequences.
pub proof fn lemma_join_concat(a: Seq<Seq<char>>, b: Seq<Seq<char>>)
    ensures
        join_lines(a + b) == join_lines(a) + join_lines(b),
    decreases a.len(),
{
    if a.len() == 0 {
        assert(a + b =~= b);
        assert(join_lines(a) + join_lines(b) =~= join_lines(b));
    } else {
        assert((a + b)[0] == a[0]);
        assert((a + b).drop_first() =~= a.drop_first() + b);
        lemma_join_concat(a.drop_first(), b);
        assert(a[0] + seq!['\n'] + (join_lines(a.drop_first()) + join_lines(b)) =~= (a[0]
            + seq!['\n'] + join_lines(a.drop_first())) + join_lines(b));
    }
}

/// Joining one line appends one newline.
pub proof fn lemma_join_single(l: Seq<char>)
    ensures
        join_lines(seq![l]) == l + seq!['\n'],
{
    assert(seq![l].drop_first() =~= Seq::<Seq<char>>::empty());
    assert(join_lines(seq![l].drop_first()).len() == 0);
    assert(join_lines(seq![l]) =~= l + seq!['\n']);
}

/// How the element text grows when one more element is taken.
pub proof fn lemma_items_snoc(fs: Seq<Seq<char>>, i: int)
    requires
        0 <= i < fs.len(),
    ensures
        items_text(fs.take(i + 1)) == items_text(fs.take(i)) + (if i == 0 {
            quoted(fs[0])
        } else {
            seq![',', ' '] + quoted(fs[i])
        }),
    decreases i,
{
    if i == 0 {
        assert(fs.take(1) =~= seq![fs[0]]);
        assert(fs.take(0) =~= Seq::<Seq<char>>::empty());
        assert(items_text(fs.take(0)) + quoted(fs[0]) =~= quoted(fs[0]));
    } else {
        let t1 = fs.take(i + 1);
        let t0 = fs.take(i);
        assert(t1.len() >= 2);
        assert(t1[0] == fs[0]);
        assert(t0[0] == fs[0]);
        assert(t1.drop_first() =~= fs.drop_first().take(i));
        assert(t0.drop_first() =~= fs.drop_first().take(i - 1));
        lemma_items_snoc(fs.drop_first(), i - 1);
        assert(fs.drop_first()[i - 1] == fs[i]);
        if i == 1 {
            assert(fs.drop_first().take(0) =~= Seq::<Seq<char>>::empty());
            assert(items_text(fs.drop_first().take(1)) == items_text(fs.drop_first().take(0))
                + quoted(fs.drop_first()[0]));
            assert(items_text(fs.drop_first().take(0)) + quoted(fs.drop_first()[0]) =~= quoted(
                fs[1],
            ));
            assert(items_text(t1) == quoted(fs[0]) + seq![',', ' '] + quoted(fs[1]));
            assert(t0.len() == 1);
            assert(items_text(t0) == quoted(fs[0]));
            assert(quoted(fs[0]) + seq![',', ' '] + quoted(fs[1]) =~= items_text(t0) + (seq![
                ',',
                ' ',
            ] + quoted(fs[1])));
        } else {
            assert(t0.len() >= 2);
            assert(items_text(t1) == quoted(fs[0]) + seq![',', ' '] + items_text(
                fs.drop_first().take(i),
            ));
            assert(items_text(t0) == quoted(fs[0]) + seq![',', ' '] + items_text(
                fs.drop_first().take(i - 1),
            ));
            assert(items_text(fs.drop_first().take(i)) == items_text(fs.drop_first().take(i - 1))
                + (seq![',', ' '] + quoted(fs[i])));
            assert(quoted(fs[0]) + seq![',', ' '] + (items_text(fs.drop_first().take(i - 1)) + (
            seq![',', ' '] + quoted(fs[i]))) =~= (quoted(fs[0]) + seq![',', ' '] + items_text(
                fs.drop_first().take(i - 1),
            )) + (seq![',', ' '] + quoted(fs[i])));
        }
    }
}

/// Serializes a configuration value to its canonical document text.
#[verifier::rlimit(100)]
pub fn serialize_config(c: &Config) -> (r: String)
    ensures
        r@ == config_text(c@),
{
    let ghost cv = c@;
    let mut out = String::new();
    let ghost mut built: Seq<Seq<char>> = seq![seq!['[', 'p', 'k', 'g', ']']];
    out.append("[pkg]\nname = \"");
    out.append(c.pkg.name.as_str());
    out.append("\"\n");
    proof {
        reveal_strlit("[pkg]\nname = \"");
        reveal_strlit("\"\n");
        built = built.push(kv_line(key_name(), quoted(cv.pkg.name)));
        lemma_join_single(built[0]);
        lemma_join_single(built[1]);
        lemma_join_concat(seq![built[0]], seq![built[1]]);
        assert(seq![built[0]] + seq![built[1]] =~= built);
        assert(out@ =~= join_lines(built));
    }
    if let Some(d) = &c.pkg.description {
        out.append("description = \"");
        out.append(d.as_str());
        out.append("\"\n");
        proof {
            reveal_strlit("description = \"");
            reveal_strlit("\"\n");
            let l = kv_line(key_description(), quoted(cv.pkg.description->Some_0));
            lemma_join_concat(built, seq![l]);
            lemma_join_single(l);
            assert(built + seq![l] =~= built.push(l));
            assert(out@ =~= join_lines(built.push(l)));
            built = built.push(l);
        }
    }
    proof {
        assert(built =~= seq![seq!['[', 'p', 'k', 'g', ']']] + seq![
            kv_line(key_name(), quoted(cv.pkg.name)),
        ] + opt_line(key_description(), cv.pkg.description));
    }
    if let Some(d) = &c.pkg.long_description {
        out.append("long_description = \"");
        out.append(d.as_str());
        out.append("\"\n");
        proof {
            reveal_strlit("long_description = \"");
            reveal_strlit("\"\n");
            let l = kv_line(key_long_description(), quoted(cv.pkg.long_description->Some_0));
            lemma_join_concat(built, seq![l]);
            lemma_join_single(l);
            assert(built + seq![l] =~= built.push(l));
            assert(out@ =~= join_lines(built.push(l)));
            built = built.push(l);
        }
    }
    out.append("\n[bin]\nfiles = [");
    let ghost fs = c.bin.files.deep_view();
    let ghost list_start = out@;
    let n = c.bin.files.len();
    let mut i: usize = 0;
    while i < n
        invariant
            i <= n == c.bin.files@.len(),
            fs == c.bin.files.deep_view(),
            out@ == list_start + items_text(fs.take(i as int)),
        decreases n - i,
    {
        if i > 0 {
            out.append(", ");
        }
        out.append("\"");
        out.append(c.bin.files[i].as_str());
        out.append("\"");
        proof {
            reveal_strlit(", ");
            reveal_strlit("\"");
            lemma_items_snoc(fs, i as int);
            assert(fs[i as int] == c.bin.files@[i as int]@);
            if i > 0 {
                assert(out@ =~= list_start + (items_text(fs.take(i as int)) + (seq![',', ' ']
                    + quoted(fs[i as int]))));
            } else {
                assert(fs.take(0) =~= Seq::<Seq<char>>::empty());
                assert(out@ =~= list_start + (items_text(fs.take(0)) + quoted(fs[0])));
            }
        }
        i += 1;
    }
    out.append("]\n");
    proof {
        reveal_strlit("\n[bin]\nfiles = [");
        reveal_strlit("]\n");
        assert(fs.take(n as int) =~= fs);
        let lblank = Seq::<char>::empty();
        let lbin = seq!['[', 'b', 'i', 'n', ']'];
        let lfiles = kv_line(key_files(), list_text(fs));
        lemma_join_concat(built, seq![lblank]);
        lemma_join_single(lblank);
        lemma_join_concat(built + seq![lblank], seq![lbin]);
        lemma_join_single(lbin);
        lemma_join_concat(built + seq![lblank] + seq![lbin], seq![lfiles]);
        lemma_join_single(lfiles);
        assert(out@ =~= join_lines(built + seq![lblank] + seq![lbin] + seq![lfiles]));
        built = built + seq![lblank] + seq![lbin] + seq![lfiles];
    }
    if let Some(d) = &c.bin.out_dir {
        out.append("out_dir = \"");
        out.append(d.as_str());
        out.append("\"\n");
        proof {
            reveal_strlit("out_dir = \"");
            reveal_strlit("\"\n");
            let l = kv_line(key_out_dir(), quoted(cv.bin.out_dir->Some_0));
            lemma_join_concat(built, seq![l]);
            lemma_join_single(l);
            assert(built + seq![l] =~= built.push(l));
            assert(out@ =~= join_lines(built.push(l)));
            built = built.push(l);
        }
    }
    if let Some(d) = &c.bin.out_file {
        out.append("out_file = \"");
        out.append(d.as_str());
        out.append("\"\n");
        proof {
            reveal_strlit("out_file = \"");
            reveal_strlit("\"\n");
            let l = kv_line(key_out_file(), quoted(cv.bin.out_file->Some_0));
            lemma_join_concat(built, seq![l]);
            lemma_join_single(l);
            assert(built + seq![l] =~= built.push(l));
            assert(out@ =~= join_lines(built.push(l)));
            built = built.push(l);
        }
    }
    proof {
        assert(built =~= lines_of(cv));
    }
    out
}

/// Folding distributes over concatenation of line sequences.
pub proof fn lemma_fold_append(st: ParseState, a: Seq<Seq<char>>, b: Seq<Seq<char>>)
    ensures
        fold_lines(st, a + b) == fold_lines(fold_lines(st, a), b),
    decreases a.len(),
{
    if a.len() == 0 {
        assert(a + b =~= b);
    } else {
        assert((a + b)[0] == a[0]);
        assert((a + b).drop_first() =~= a.drop_first() + b);
        lemma_fold_append(state_step(st, a[0]), a.drop_first(), b);
    }
}

/// A failed read stays failed whatever lines follow.
pub proof fn lemma_fold_failed(st: ParseState, ls: Seq<Seq<char>>)
    requires
        st.failed,
    ensures
        fold_lines(st, ls) == st,
    decreases ls.len(),
{
    if ls.len() > 0 {
        lemma_fold_failed(st, ls.drop_first());
    }
}

} // verus!
