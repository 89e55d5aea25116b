//! The verified reader of `lion.toml` documents: from text to a
//! [`Config`], exactly as [`parse_config_text`] describes.

use vstd::prelude::*;
use vstd::string::StrSliceExecFns;

use crate::config::{Bin, Config, Pkg};
use crate::errors::LionError;
use crate::format::{
    classify_line, no_char, finish_state, fold_lines, init_state, key_description, key_files,
    key_long_description, key_name, key_out_dir, key_out_file, lemma_fold_append,
    lemma_fold_failed, parse_config_text, parse_items, parse_list, parse_quoted, table_bin,
    table_pkg, LineKind, ParseState, TableKind,
};
use crate::text::{find_char, find_char_in, range_eq, split_lines, trim_in, trimmed};

verus! {

/// The fields collected so far while reading a document.
struct Partial {
    table: TableKind,
    name: Option<String>,
    description: Option<String>,
    long_description: Option<String>,
    files: Option<Vec<String>>,
    out_dir: Option<String>,
    out_file: Option<String>,
}

spec fn opt_view(o: Option<String>) -> Option<Seq<char>> {
    match o {
        Some(s) => Some(s@),
        None => None,
    }
}

spec fn pview(p: Partial) -> ParseState {
    ParseState {
        table: p.table,
        name: opt_view(p.name),
        description: opt_view(p.description),
        long_description: opt_view(p.long_description),
        files: match p.files {
            Some(v) => Some(v.deep_view()),
            None => None,
        },
        out_dir: opt_view(p.out_dir),
        out_file: opt_view(p.out_file),
        failed: false,
    }
}

fn parse_error(msg: &str) -> (r: LionError)
    ensures
        r is ParseError,
{
    LionError::ParseError(msg.to_owned())
}

/// Reads the quoted string in the (pre-trimmed) range `[lo, hi)`.
#[verifier::loop_isolation(false)]
fn quoted_in(s: &str, lo: usize, hi: usize) -> (r: Option<String>)
    requires
        lo <= hi <= s@.len(),
    ensures
        match r {
            Some(x) => parse_quoted(s@.subrange(lo as int, hi as int)) == Some(x@),
            None => parse_quoted(s@.subrange(lo as int, hi as int)) is None,
        },
{
    let ghost t = s@.subrange(lo as int, hi as int);
    if hi - lo < 2 {
        return None;
    }
    if s.get_char(lo) != '"' || s.get_char(hi - 1) != '"' {
        proof {
            assert(t[0] == s@[lo as int]);
            assert(t[t.len() - 1] == s@[hi - 1]);
        }
        return None;
    }
    proof {
        assert(t[0] == s@[lo as int]);
        assert(t[t.len() - 1] == s@[hi - 1]);
    }
    let mut i = lo + 1;
    while i < hi - 1
        invariant
            lo + 1 <= i <= hi - 1,
            hi <= s@.len(),
            forall|m: int| lo + 1 <= m < i ==> s@[m] != '"' && s@[m] != '\\',
        decreases hi - i,
    {
        let c = s.get_char(i);
        if c == '"' || c == '\\' {
            proof {
                let mid = t.subrange(1, t.len() - 1);
                assert(t[i - lo] == s@[i as int]);
                assert(mid[i - lo - 1] == t[i - lo]);
                assert(!(no_char(mid, '"') && no_char(mid, '\\')));
            }
            return None;
        }
        i += 1;
    }
    let sub = s.substring_char(lo + 1, hi - 1);
    proof {
        let mid = t.subrange(1, t.len() - 1);
        assert forall|m: int| 0 <= m < mid.len() implies mid[m] != '"' && mid[m] != '\\' by {
            assert(mid[m] == s@[lo + 1 + m]);
        }
        assert(sub@ =~= mid);
    }
    Some(sub.to_owned())
}

/// Reads the bracketed list in the (pre-trimmed) range `[lo, hi)`.
#[verifier::loop_isolation(false)]
fn list_in(s: &str, lo: usize, hi: usize) -> (r: Option<Vec<String>>)
    requires
        lo <= hi <= s@.len(),
    ensures
        match r {
            Some(v) => parse_list(s@.subrange(lo as int, hi as int)) == Some(v.deep_view()),
            None => parse_list(s@.subrange(lo as int, hi as int)) is None,
        },
{
    let ghost t = s@.subrange(lo as int, hi as int);
    if hi - lo < 2 {
        return None;
    }
    if s.get_char(lo) != '[' || s.get_char(hi - 1) != ']' {
        proof {
            assert(t[0] == s@[lo as int]);
            assert(t[t.len() - 1] == s@[hi - 1]);
        }
        return None;
    }
    proof {
        assert(t[0] == s@[lo as int]);
        assert(t[t.len() - 1] == s@[hi - 1]);
        assert(t.subrange(1, t.len() - 1) =~= s@.subrange(lo + 1, hi - 1));
    }
    let (ia, ib) = trim_in(s, lo + 1, hi - 1);
    let ghost inner = trimmed(s@.subrange(lo + 1, hi - 1));
    let mut out: Vec<String> = Vec::new();
    if ia == ib {
        proof {
            assert(inner.len() == 0);
            assert(out.deep_view() =~= Seq::<Seq<char>>::empty());
        }
        return Some(out);
    }
    let mut cur = ia;
    while cur < ib
        invariant
            ia <= cur <= ib <= s@.len(),
            inner == s@.subrange(ia as int, ib as int),
            match parse_items(s@.subrange(cur as int, ib as int)) {
                Some(rest) => parse_items(inner) == Some(out.deep_view() + rest),
                None => parse_items(inner) is None,
            },
        decreases ib - cur,
    {
        let j = find_char_in(s, cur, ib, ',');
        let ghost piece = s@.subrange(cur as int, ib as int);
        proof {
            assert(piece.subrange(0, j - cur) =~= s@.subrange(cur as int, j as int));
        }
        let (ea, eb) = trim_in(s, cur, j);
        let x = match quoted_in(s, ea, eb) {
            Some(x) => x,
            None => {
                proof {
                    if j == ib {
                        assert(trimmed(piece) == s@.subrange(ea as int, eb as int));
                        assert(parse_items(piece) is None);
                    } else {
                        assert(parse_items(piece) is None);
                    }
                }
                return None;
            },
        };
        let ghost out_pre = out.deep_view();
        let ghost vec_pre = out@;
        out.push(x);
        proof {
            assert(out@ == vec_pre.push(out@[vec_pre.len() as int]));
            assert(out.deep_view() =~= out_pre.push(x@));
        }
        if j == ib {
            proof {
                assert(parse_items(piece) == Some(seq![x@]));
                assert(out_pre + seq![x@] =~= out.deep_view());
                assert(parse_items(inner) == Some(out.deep_view()));
            }
            return Some(out);
        }
        proof {
            let after = s@.subrange(j as int + 1, ib as int);
            assert(piece.subrange(j - cur + 1, piece.len() as int) =~= after);
            assert(parse_items(piece) == match parse_items(after) {
                Some(rest) => Some(seq![x@] + rest),
                None => None::<Seq<Seq<char>>>,
            });
            assert(match parse_items(after) {
                Some(rest) => parse_items(inner) == Some(out.deep_view() + rest),
                None => parse_items(inner) is None,
            }) by {
                if parse_items(after) is Some {
                    let rest = parse_items(after)->Some_0;
                    assert(out_pre + (seq![x@] + rest) =~= out.deep_view() + rest);
                }
            }
        }
        cur = j + 1;
    }
    proof {
        let piece = s@.subrange(cur as int, ib as int);
        assert(piece.len() == 0);
        assert(find_char(piece, ',') == 0);
        assert(trimmed(piece) =~= piece);
        assert(parse_quoted(trimmed(piece)) is None);
        assert(parse_items(piece) is None);
    }
    None
}

/// Reads one raw line `[lo, hi)` of the document into the running state.
#[verifier::rlimit(60)]
fn line_step(s: &str, lo: usize, hi: usize, st: Partial) -> (r: Result<Partial, LionError>)
    requires
        lo <= hi <= s@.len(),
    ensures
        match r {
            Ok(st2) => state_is(pview(st), s@.subrange(lo as int, hi as int), pview(st2)),
            Err(e) => crate::format::state_step(
                pview(st),
                s@.subrange(lo as int, hi as int),
            ).failed && e is ParseError,
        },
{
    let ghost raw = s@.subrange(lo as int, hi as int);
    let (a, b) = trim_in(s, lo, hi);
    let ghost t = trimmed(raw);
    proof {
        assert(t == s@.subrange(a as int, b as int));
    }
    if a == b {
        proof {
            assert(classify_line(raw) is Blank);
        }
        return Ok(st);
    }
    let c0 = s.get_char(a);
    proof {
        assert(t[0] == s@[a as int]);
        assert(t[t.len() - 1] == s@[b - 1]);
    }
    if c0 == '#' {
        proof {
            assert(classify_line(raw) is Blank);
        }
        return Ok(st);
    }
    if c0 == '[' {
        if b - a < 2 || s.get_char(b - 1) != ']' {
            proof {
                assert(classify_line(raw) is Bad);
            }
            return Err(parse_error("malformed table header in lion config"));
        }
        proof {
            assert(t.subrange(1, t.len() - 1) =~= s@.subrange(a + 1, b - 1));
        }
        let (ha, hb) = trim_in(s, a + 1, b - 1);
        let ghost h = trimmed(t.subrange(1, t.len() - 1));
        if ha == hb {
            proof {
                assert(h.len() == 0);
                assert(classify_line(raw) is Bad);
            }
            return Err(parse_error("empty table header in lion config"));
        }
        proof {
            assert(classify_line(raw) == LineKind::Header(h));
            reveal_strlit("pkg");
            reveal_strlit("bin");
            assert("pkg"@ =~= table_pkg());
            assert("bin"@ =~= table_bin());
        }
        let mut st2 = st;
        if range_eq(s, ha, hb, "pkg") {
            st2.table = TableKind::PkgTable;
        } else if range_eq(s, ha, hb, "bin") {
            st2.table = TableKind::BinTable;
        } else {
            st2.table = TableKind::OtherTable;
        }
        proof {
            assert(pview(st2) =~= crate::format::state_step(pview(st), raw));
        }
        return Ok(st2);
    }
    // a key = value line
    let eq = find_char_in(s, a, b, '=');
    if eq == b {
        proof {
            assert(classify_line(raw) is Bad);
        }
        return Err(parse_error("expected `key = value` in lion config"));
    }
    proof {
        assert(t.subrange(0, eq - a) =~= s@.subrange(a as int, eq as int));
        assert(t.subrange(eq - a + 1, t.len() as int) =~= s@.subrange(eq as int + 1, b as int));
    }
    let (ka, kb) = trim_in(s, a, eq);
    let (va, vb) = trim_in(s, eq + 1, b);
    let ghost k = trimmed(t.subrange(0, eq - a));
    let ghost v = trimmed(t.subrange(eq - a + 1, t.len() as int));
    if ka == kb || va == vb {
        proof {
            assert(classify_line(raw) is Bad);
        }
        return Err(parse_error("empty key or value in lion config"));
    }
    proof {
        assert(classify_line(raw) == LineKind::KeyRest(k, v));
        reveal_strlit("name");
        reveal_strlit("description");
        reveal_strlit("long_description");
        reveal_strlit("files");
        reveal_strlit("out_dir");
        reveal_strlit("out_file");
        assert("name"@ =~= key_name());
        assert("description"@ =~= key_description());
        assert("long_description"@ =~= key_long_description());
        assert("files"@ =~= key_files());
        assert("out_dir"@ =~= key_out_dir());
        assert("out_file"@ =~= key_out_file());
    }
    let mut st2 = st;
    match st2.table {
        TableKind::PkgTable => {
            if range_eq(s, ka, kb, "name") {
                let x = match quoted_in(s, va, vb) {
                    Some(x) => x,
                    None => {
                        return Err(parse_error("pkg.name must be a quoted string"));
                    },
                };
                if st2.name.is_some() {
                    return Err(parse_error("duplicate key pkg.name"));
                }
                st2.name = Some(x);
            } else if range_eq(s, ka, kb, "description") {
                let x = match quoted_in(s, va, vb) {
                    Some(x) => x,
                    None => {
                        return Err(parse_error("pkg.description must be a quoted string"));
                    },
                };
                if st2.description.is_some() {
                    return Err(parse_error("duplicate key pkg.description"));
                }
                st2.description = Some(x);
            } else if range_eq(s, ka, kb, "long_description") {
                let x = match quoted_in(s, va, vb) {
                    Some(x) => x,
                    None => {
                        return Err(parse_error("pkg.long_description must be a quoted string"));
                    },
                };
                if st2.long_description.is_some() {
                    return Err(parse_error("duplicate key pkg.long_description"));
                }
                st2.long_description = Some(x);
            }
            proof {
                assert(pview(st2) =~= crate::format::state_step(pview(st), raw));
            }
            Ok(st2)
        },
        TableKind::BinTable => {
            if range_eq(s, ka, kb, "files") {
                let x = match list_in(s, va, vb) {
                    Some(x) => x,
                    None => {
                        return Err(parse_error("bin.files must be a list of quoted strings"));
                    },
                };
                if st2.files.is_some() {
                    return Err(parse_error("duplicate key bin.files"));
                }
                st2.files = Some(x);
            } else if range_eq(s, ka, kb, "out_dir") {
                let x = match quoted_in(s, va, vb) {
                    Some(x) => x,
                    None => {
                        return Err(parse_error("bin.out_dir must be a quoted string"));
                    },
                };
                if st2.out_dir.is_some() {
                    return Err(parse_error("duplicate key bin.out_dir"));
                }
                st2.out_dir = Some(x);
            } else if range_eq(s, ka, kb, "out_file") {
                let x = match quoted_in(s, va, vb) {
                    Some(x) => x,
                    None => {
                        return Err(parse_error("bin.out_file must be a quoted string"));
                    },
                };
                if st2.out_file.is_some() {
                    return Err(parse_error("duplicate key bin.out_file"));
                }
                st2.out_file = Some(x);
            }
            proof {
                assert(pview(st2) =~= crate::format::state_step(pview(st), raw));
            }
            Ok(st2)
        },
        _ => {
            proof {
                assert(pview(st2) =~= crate::format::state_step(pview(st), raw));
            }
            Ok(st2)
        },
    }
}

/// One successful read step: reading `raw` from `pre` gives `post`.
spec fn state_is(pre: ParseState, raw: Seq<char>, post: ParseState) -> bool {
    crate::format::state_step(pre, raw) == post
}

/// Turns a fully read document into the configuration it denotes, or the
/// error naming the missing required field.
fn finish_partial(st: Partial) -> (r: Result<Config, LionError>)
    ensures
        match r {
            Ok(c) => finish_state(pview(st)) == Some(c@),
            Err(e) => finish_state(pview(st)) is None && e is ParseError,
        },
{
    let name = match st.name {
        Some(n) => n,
        None => {
            return Err(parse_error("missing required field pkg.name"));
        },
    };
    let files = match st.files {
        Some(f) => f,
        None => {
            return Err(parse_error("missing required field bin.files"));
        },
    };
    let c = Config {
        pkg: Pkg {
            name,
            description: st.description,
            long_description: st.long_description,
        },
        bin: Bin { files, out_dir: st.out_dir, out_file: st.out_file },
    };
    proof {
        assert(finish_state(pview(st))->Some_0 =~= c@);
    }
    Ok(c)
}

/// Reads a whole configuration document.
///
/// Returns the configuration the text denotes, and a `ParseError` exactly
/// when the text denotes none: when some line is malformed, a key is
/// given twice or with a value of the wrong shape, or a required field
/// (`pkg.name`, `bin.files`) is missing.
#[verifier::loop_isolation(false)]
pub fn parse_config_str(s: &str) -> (r: Result<Config, LionError>)
    ensures
        r matches Ok(c) ==> parse_config_text(s@) == Some(c@),
        r matches Err(e) ==> parse_config_text(s@) is None && e is ParseError,
{
    let len = s.unicode_len();
    let mut st = Partial {
        table: TableKind::TopLevel,
        name: None,
        description: None,
        long_description: None,
        files: None,
        out_dir: None,
        out_file: None,
    };
    let mut pos: usize = 0;
    let ghost mut done: Seq<Seq<char>> = Seq::empty();
    proof {
        assert(s@.subrange(0, len as int) =~= s@);
        assert(done + split_lines(s@.subrange(0, len as int)) =~= split_lines(s@));
    }
    loop
        invariant
            pos <= len == s@.len(),
            split_lines(s@) == done + split_lines(s@.subrange(pos as int, len as int)),
            fold_lines(init_state(), done) == pview(st),
        decreases len - pos,
    {
        let j = find_char_in(s, pos, len, '\n');
        let ghost line = s@.subrange(pos as int, j as int);
        let ghost rest = s@.subrange(pos as int, len as int);
        let ghost after = s@.subrange(j as int + 1, len as int);
        proof {
            assert(rest.subrange(0, j - pos) =~= line);
            if j < len {
                assert(rest.subrange(j - pos + 1, rest.len() as int) =~= after);
                assert(split_lines(rest) == seq![line] + split_lines(after));
            } else {
                assert(rest =~= line);
                assert(split_lines(rest) == seq![line]);
            }
        }
        let ghost st_pre = pview(st);
        st = match line_step(s, pos, j, st) {
            Ok(st2) => st2,
            Err(e) => {
                proof {
                    let stepped = crate::format::state_step(st_pre, line);
                    if j < len {
                        lemma_fold_append(init_state(), done, seq![line] + split_lines(after));
                        let ls = seq![line] + split_lines(after);
                        assert(ls[0] == line);
                        assert(ls.drop_first() =~= split_lines(after));
                        assert(fold_lines(st_pre, ls) == fold_lines(stepped, ls.drop_first()));
                        lemma_fold_failed(stepped, split_lines(after));
                    } else {
                        lemma_fold_append(init_state(), done, seq![line]);
                        let ls = seq![line];
                        assert(ls[0] == line);
                        assert(ls.drop_first() =~= Seq::<Seq<char>>::empty());
                        assert(fold_lines(st_pre, ls) == fold_lines(stepped, ls.drop_first()));
                        assert(fold_lines(stepped, ls.drop_first()) == stepped);
                    }
                    assert(fold_lines(init_state(), split_lines(s@)).failed);
                }
                return Err(e);
            },
        };
        if j == len {
            proof {
                lemma_fold_append(init_state(), done, seq![line]);
                let ls = seq![line];
                assert(ls[0] == line);
                assert(ls.drop_first() =~= Seq::<Seq<char>>::empty());
                assert(fold_lines(st_pre, ls) == fold_lines(
                    crate::format::state_step(st_pre, line),
                    ls.drop_first(),
                ));
                assert(fold_lines(init_state(), split_lines(s@)) == pview(st));
            }
            return finish_partial(st);
        }
        pos = j + 1;
        proof {
            lemma_fold_append(init_state(), done, seq![line]);
            let ls = seq![line];
            assert(ls[0] == line);
            assert(ls.drop_first() =~= Seq::<Seq<char>>::empty());
            assert(fold_lines(st_pre, ls) == fold_lines(
                crate::format::state_step(st_pre, line),
                ls.drop_first(),
            ));
            let done2 = done.push(line);
            assert(done2 =~= done + seq![line]);
            assert(fold_lines(init_state(), done2) == pview(st));
            done = done2;
            assert(done + split_lines(s@.subrange(pos as int, len as int)) =~= split_lines(s@));
        }
    }
}

} // verus!
