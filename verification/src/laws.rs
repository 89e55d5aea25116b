//! The laws of the configuration format: reading back what was written
//! yields the same configuration, and the defaults of a new project obey
//! them.

use vstd::prelude::*;

use crate::config::ConfigView;
use crate::format::{
    bin_lines, classify_line, config_text, finish_state, fold_lines, init_state, items_text, key_description,
    key_files, key_long_description, key_name, key_out_dir, key_out_file, kv_line,
    lemma_join_concat, lemma_join_single, lines_of, list_text, no_char, opt_line,
    parse_config_text, parse_items, parse_list, parse_quoted, plain_item,
    plain_text, quoted, serializable, state_step, LineKind, ParseState, TableKind, table_bin,
    table_pkg,
};
use crate::init::default_config_view;
use crate::lion::out_path_of;
use crate::text::{
    find_char, is_space, join_lines, lemma_find_char_concat, lemma_trim_back_spaces,
    lemma_trim_front_spaces, lemma_trimmed_clean, split_lines, trim_back, trim_front, trimmed,
};

verus! {

/// Reading a document one line at a time: consuming the first line moves
/// the state one step.
proof fn lemma_step_text(st: ParseState, l: Seq<char>, rest: Seq<char>)
    requires
        no_char(l, '\n'),
    ensures
        fold_lines(st, split_lines(l + seq!['\n'] + rest)) == fold_lines(
            state_step(st, l),
            split_lines(rest),
        ),
{
    let s = l + seq!['\n'] + rest;
    assert(s =~= l + (seq!['\n'] + rest));
    lemma_find_char_concat(l, seq!['\n'] + rest, '\n');
    assert((seq!['\n'] + rest)[0] == '\n');
    let i = find_char(s, '\n');
    assert(i == l.len());
    assert(i < s.len());
    assert(s.subrange(0, i as int) =~= l);
    assert(s.subrange(i as int + 1, s.len() as int) =~= rest);
    assert(split_lines(s) == seq![l] + split_lines(rest));
    let ls = seq![l] + split_lines(rest);
    assert(ls[0] == l);
    assert(ls.drop_first() =~= split_lines(rest));
}

/// An empty remainder is one final blank line, which changes nothing.
proof fn lemma_end_text(st: ParseState)
    ensures
        fold_lines(st, split_lines(Seq::empty())) == st,
{
    let e = Seq::<char>::empty();
    assert(find_char(e, '\n') == 0);
    assert(split_lines(e) =~= seq![e]);
    lemma_trimmed_clean(e);
    assert(classify_line(e) is Blank);
    let ls = seq![e];
    assert(ls[0] == e);
    assert(ls.drop_first() =~= Seq::<Seq<char>>::empty());
    assert(fold_lines(st, ls) == fold_lines(state_step(st, e), ls.drop_first()));
}

/// Unquoting undoes quoting of plain text.
proof fn lemma_quoted_roundtrip(v: Seq<char>)
    requires
        plain_text(v),
    ensures
        parse_quoted(quoted(v)) == Some(v),
{
    let t = quoted(v);
    assert(t.len() == v.len() + 2);
    assert(t[0] == '"');
    assert(t[t.len() - 1] == '"');
    let mid = t.subrange(1, t.len() - 1);
    assert(mid =~= v);
}

/// A canonical `key = value` line classifies as that key and value.
proof fn lemma_classify_kv(k: Seq<char>, vt: Seq<char>)
    requires
        k.len() > 0,
        !is_space(k[0]),
        !is_space(k[k.len() - 1]),
        k[0] != '#',
        k[0] != '[',
        no_char(k, '='),
        vt.len() > 0,
        !is_space(vt[0]),
        !is_space(vt[vt.len() - 1]),
    ensures
        classify_line(kv_line(k, vt)) == LineKind::KeyRest(k, vt),
{
    let raw = kv_line(k, vt);
    assert(raw.len() == k.len() + 3 + vt.len());
    assert(raw[0] == k[0]);
    assert(raw[raw.len() - 1] == vt[vt.len() - 1]);
    lemma_trimmed_clean(raw);
    assert(trimmed(raw) == raw);
    // the first `=` is the separator
    assert(raw =~= k + (seq![' ', '=', ' '] + vt));
    lemma_find_char_concat(k, seq![' ', '=', ' '] + vt, '=');
    assert(seq![' ', '=', ' '] + vt =~= seq![' '] + (seq!['=', ' '] + vt));
    lemma_find_char_concat(seq![' '], seq!['=', ' '] + vt, '=');
    assert((seq!['=', ' '] + vt)[0] == '=');
    let i = find_char(raw, '=');
    assert(i == k.len() + 1);
    // the key side trims to the key
    assert(raw.subrange(0, i as int) =~= k + seq![' ']);
    assert((k + seq![' '])[0] == k[0]);
    assert(trim_front(k + seq![' ']) == k + seq![' ']);
    lemma_trim_back_spaces(k, seq![' ']);
    assert(trim_back(k) == k);
    assert(trimmed(raw.subrange(0, i as int)) == k);
    // the value side trims to the value text
    assert(raw.subrange(i as int + 1, raw.len() as int) =~= seq![' '] + vt);
    lemma_trim_front_spaces(seq![' '], vt);
    assert(trim_front(vt) == vt);
    assert(trim_back(vt) == vt);
    assert(trimmed(raw.subrange(i as int + 1, raw.len() as int)) == vt);
}

/// The element run of a non-empty list starts and ends with a quote and
/// contains no newline when its elements are plain.
proof fn lemma_items_shape(fs: Seq<Seq<char>>)
    requires
        fs.len() > 0,
        forall|i: int| 0 <= i < fs.len() ==> plain_item(#[trigger] fs[i]),
    ensures
        items_text(fs).len() >= 2,
        items_text(fs)[0] == '"',
        items_text(fs)[items_text(fs).len() - 1] == '"',
        no_char(items_text(fs), '\n'),
    decreases fs.len(),
{
    if fs.len() == 1 {
        assert(items_text(fs) == quoted(fs[0]));
        assert(quoted(fs[0])[0] == '"');
        assert(quoted(fs[0])[quoted(fs[0]).len() - 1] == '"');
        assert forall|m: int| 0 <= m < quoted(fs[0]).len() implies quoted(fs[0])[m] != '\n' by {
            if 1 <= m < quoted(fs[0]).len() - 1 {
                assert(quoted(fs[0])[m] == fs[0][m - 1]);
            }
        }
    } else {
        assert forall|i: int| 0 <= i < fs.drop_first().len() implies plain_item(
            #[trigger] fs.drop_first()[i],
        ) by {
            assert(fs.drop_first()[i] == fs[i + 1]);
        }
        lemma_items_shape(fs.drop_first());
        let t = items_text(fs);
        assert(t == quoted(fs[0]) + seq![',', ' '] + items_text(fs.drop_first()));
        assert(t[0] == quoted(fs[0])[0]);
        assert(t[t.len() - 1] == items_text(fs.drop_first())[items_text(fs.drop_first()).len()
            - 1]);
        assert forall|m: int| 0 <= m < t.len() implies t[m] != '\n' by {
            let a = quoted(fs[0]);
            let b = items_text(fs.drop_first());
            if m < a.len() {
                assert(t[m] == a[m]);
                if 1 <= m < a.len() - 1 {
                    assert(a[m] == fs[0][m - 1]);
                }
            } else if m < a.len() + 2 {
                assert(t[m] == (seq![',', ' '])[m - a.len()]);
            } else {
                assert(t[m] == b[m - a.len() - 2]);
            }
        }
    }
}

/// Reading back the element run of a non-empty list of plain elements,
/// after any whitespace, yields the elements.
proof fn lemma_items_roundtrip(sp: Seq<char>, fs: Seq<Seq<char>>)
    requires
        forall|m: int| 0 <= m < sp.len() ==> is_space(sp[m]),
        fs.len() > 0,
        forall|i: int| 0 <= i < fs.len() ==> plain_item(#[trigger] fs[i]),
    ensures
        parse_items(sp + items_text(fs)) == Some(fs),
    decreases fs.len(),
{
    let t = sp + items_text(fs);
    let q = quoted(fs[0]);
    assert forall|m: int| 0 <= m < q.len() implies q[m] != ',' by {
        if 1 <= m < q.len() - 1 {
            assert(q[m] == fs[0][m - 1]);
        }
    }
    assert forall|m: int| 0 <= m < (sp + q).len() implies (sp + q)[m] != ',' by {
        if m < sp.len() {
            assert((sp + q)[m] == sp[m]);
        } else {
            assert((sp + q)[m] == q[m - sp.len()]);
        }
    }
    lemma_quoted_roundtrip(fs[0]);
    if fs.len() == 1 {
        assert(items_text(fs) == q);
        lemma_find_char_concat(sp + q, Seq::empty(), ',');
        assert((sp + q) + Seq::<char>::empty() =~= t);
        assert(find_char(Seq::<char>::empty(), ',') == 0);
        assert(find_char(t, ',') == t.len());
        lemma_trim_front_spaces(sp, q);
        assert(q[0] == '"');
        assert(q[q.len() - 1] == '"');
        assert(trim_front(q) == q);
        assert(trim_back(q) == q);
        assert(trimmed(t) == q);
        assert(seq![fs[0]] =~= fs);
    } else {
        assert(items_text(fs) == q + seq![',', ' '] + items_text(fs.drop_first()));
        let after = seq![' '] + items_text(fs.drop_first());
        assert(t =~= (sp + q) + (seq![','] + after));
        lemma_find_char_concat(sp + q, seq![','] + after, ',');
        assert((seq![','] + after)[0] == ',');
        let i = find_char(t, ',');
        assert(i == sp.len() + q.len());
        assert(i < t.len());
        assert(t.subrange(0, i as int) =~= sp + q);
        lemma_trim_front_spaces(sp, q);
        assert(q[0] == '"');
        assert(q[q.len() - 1] == '"');
        assert(trim_front(q) == q);
        assert(trim_back(q) == q);
        assert(trimmed(t.subrange(0, i as int)) == q);
        assert(t.subrange(i as int + 1, t.len() as int) =~= after);
        assert forall|i2: int| 0 <= i2 < fs.drop_first().len() implies plain_item(
            #[trigger] fs.drop_first()[i2],
        ) by {
            assert(fs.drop_first()[i2] == fs[i2 + 1]);
        }
        lemma_items_roundtrip(seq![' '], fs.drop_first());
        assert(after == seq![' '] + items_text(fs.drop_first()));
        assert(parse_items(t) == Some(seq![fs[0]] + fs.drop_first()));
        assert(seq![fs[0]] + fs.drop_first() =~= fs);
    }
}

/// Reading back the text of a list of plain elements yields the elements.
proof fn lemma_list_roundtrip(fs: Seq<Seq<char>>)
    requires
        forall|i: int| 0 <= i < fs.len() ==> plain_item(#[trigger] fs[i]),
    ensures
        parse_list(list_text(fs)) == Some(fs),
{
    let t = list_text(fs);
    assert(t[0] == '[');
    assert(t[t.len() - 1] == ']');
    assert(t.len() >= 2);
    assert(t.subrange(1, t.len() - 1) =~= items_text(fs));
    if fs.len() == 0 {
        assert(items_text(fs).len() == 0);
        lemma_trimmed_clean(items_text(fs));
        assert(parse_list(t) == Some(Seq::<Seq<char>>::empty()));
        assert(Seq::<Seq<char>>::empty() =~= fs);
    } else {
        lemma_items_shape(fs);
        lemma_trimmed_clean(items_text(fs));
        assert(trimmed(items_text(fs)) == items_text(fs));
        assert(Seq::<char>::empty() + items_text(fs) =~= items_text(fs));
        lemma_items_roundtrip(Seq::empty(), fs);
    }
}

/// One canonical `key = "value"` line, followed by a newline and the
/// rest of the document: consuming it moves the state one step, and that
/// step sees exactly the key and the quoted value.
proof fn lemma_kv_text_step(st: ParseState, k: Seq<char>, v: Seq<char>, rest: Seq<char>)
    requires
        k.len() > 0,
        !is_space(k[0]),
        !is_space(k[k.len() - 1]),
        k[0] != '#',
        k[0] != '[',
        no_char(k, '='),
        no_char(k, '\n'),
        plain_text(v),
    ensures
        classify_line(kv_line(k, quoted(v))) == LineKind::KeyRest(k, quoted(v)),
        parse_quoted(quoted(v)) == Some(v),
        fold_lines(st, split_lines(kv_line(k, quoted(v)) + seq!['\n'] + rest)) == fold_lines(
            state_step(st, kv_line(k, quoted(v))),
            split_lines(rest),
        ),
{
    let q = quoted(v);
    let l = kv_line(k, q);
    assert(q[0] == '"');
    assert(q[q.len() - 1] == '"');
    lemma_classify_kv(k, q);
    lemma_quoted_roundtrip(v);
    assert forall|m: int| 0 <= m < l.len() implies l[m] != '\n' by {
        if m < k.len() {
            assert(l[m] == k[m]);
        } else if m < k.len() + 3 {
            assert(l[m] == (seq![' ', '=', ' '])[m - k.len()]);
        } else {
            assert(l[m] == q[m - k.len() - 3]);
            if 1 <= m - k.len() - 3 < q.len() - 1 {
                assert(q[m - k.len() - 3] == v[m - k.len() - 4]);
            }
        }
    }
    lemma_step_text(st, l, rest);
}

/// The canonical `files = [...]` line, followed by a newline and the rest
/// of the document: consuming it moves the state one step, and that step
/// sees exactly the element list.
proof fn lemma_files_text_step(st: ParseState, fs: Seq<Seq<char>>, rest: Seq<char>)
    requires
        forall|i: int| 0 <= i < fs.len() ==> plain_item(#[trigger] fs[i]),
    ensures
        classify_line(kv_line(key_files(), list_text(fs))) == LineKind::KeyRest(
            key_files(),
            list_text(fs),
        ),
        parse_list(list_text(fs)) == Some(fs),
        fold_lines(st, split_lines(kv_line(key_files(), list_text(fs)) + seq!['\n'] + rest))
            == fold_lines(state_step(st, kv_line(key_files(), list_text(fs))), split_lines(rest)),
{
    let lt = list_text(fs);
    let l = kv_line(key_files(), lt);
    assert(lt[0] == '[');
    assert(lt[lt.len() - 1] == ']');
    if fs.len() > 0 {
        lemma_items_shape(fs);
    }
    assert forall|m: int| 0 <= m < lt.len() implies lt[m] != '\n' by {
        if 1 <= m < lt.len() - 1 {
            assert(lt[m] == items_text(fs)[m - 1]);
        }
    }
    lemma_classify_kv(key_files(), lt);
    lemma_list_roundtrip(fs);
    assert forall|m: int| 0 <= m < l.len() implies l[m] != '\n' by {
        if m < key_files().len() {
            assert(l[m] == key_files()[m]);
        } else if m < key_files().len() + 3 {
            assert(l[m] == (seq![' ', '=', ' '])[m - key_files().len()]);
        } else {
            assert(l[m] == lt[m - key_files().len() - 3]);
        }
    }
    lemma_step_text(st, l, rest);
}

/// A canonical `[pkg]`-style header line followed by the rest: consuming
/// it moves the state one step, and that step sees the header name.
proof fn lemma_header_text_step(st: ParseState, h: Seq<char>, rest: Seq<char>)
    requires
        h == table_pkg() || h == table_bin(),
    ensures
        classify_line(seq!['['] + h + seq![']']) == LineKind::Header(h),
        fold_lines(st, split_lines((seq!['['] + h + seq![']']) + seq!['\n'] + rest))
            == fold_lines(state_step(st, seq!['['] + h + seq![']']), split_lines(rest)),
{
    let l = seq!['['] + h + seq![']'];
    assert(l[0] == '[');
    assert(l[l.len() - 1] == ']');
    lemma_trimmed_clean(l);
    assert(l.subrange(1, l.len() - 1) =~= h);
    lemma_trimmed_clean(h);
    assert(classify_line(l) == LineKind::Header(h));
    assert forall|m: int| 0 <= m < l.len() implies l[m] != '\n' by {
        if 1 <= m < l.len() - 1 {
            assert(l[m] == h[m - 1]);
        }
    }
    lemma_step_text(st, l, rest);
}

/// The state after the `[pkg]` section of a canonical document.
spec fn pkg_state(c: ConfigView) -> ParseState {
    ParseState {
        table: TableKind::PkgTable,
        name: Some(c.pkg.name),
        description: c.pkg.description,
        long_description: c.pkg.long_description,
        files: None,
        out_dir: None,
        out_file: None,
        failed: false,
    }
}

/// The state after a whole canonical document.
spec fn full_state(c: ConfigView) -> ParseState {
    ParseState {
        table: TableKind::BinTable,
        name: Some(c.pkg.name),
        description: c.pkg.description,
        long_description: c.pkg.long_description,
        files: Some(c.bin.files),
        out_dir: c.bin.out_dir,
        out_file: c.bin.out_file,
        failed: false,
    }
}

/// Reading the `[pkg]` section of a canonical document.
#[verifier::rlimit(100)]
#[verifier::spinoff_prover]
proof fn lemma_round_trip_pkg(c: ConfigView)
    requires
        serializable(c),
    ensures
        fold_lines(init_state(), split_lines(config_text(c))) == fold_lines(
            pkg_state(c),
            split_lines(join_lines(bin_lines(c))),
        ),
{
    let seg1 = seq![seq!['[', 'p', 'k', 'g', ']']];
    let l1 = seg1[0];
    let seg2 = seq![kv_line(key_name(), quoted(c.pkg.name))];
    let l2 = seg2[0];
    let seg3 = opt_line(key_description(), c.pkg.description);
    let seg4 = opt_line(key_long_description(), c.pkg.long_description);
    let tail = bin_lines(c);
    let r1 = seg2 + seg3 + seg4 + tail;
    let r2 = seg3 + seg4 + tail;
    let r3 = seg4 + tail;
    let r4 = tail;

    // the [pkg] header line
    assert(lines_of(c) =~= seg1 + r1);
    lemma_join_concat(seg1, r1);
    lemma_join_single(l1);
    assert(l1 =~= seq!['['] + table_pkg() + seq![']']);
    assert(config_text(c) =~= (seq!['['] + table_pkg() + seq![']']) + seq!['\n'] + join_lines(
        r1,
    ));
    lemma_header_text_step(init_state(), table_pkg(), join_lines(r1));
    let st1 = state_step(init_state(), l1);
    assert(st1 =~= ParseState { table: TableKind::PkgTable, ..init_state() });

    // the name line
    assert(r1 =~= seg2 + r2);
    lemma_join_concat(seg2, r2);
    lemma_join_single(l2);
    assert(join_lines(r1) =~= l2 + seq!['\n'] + join_lines(r2));
    lemma_kv_text_step(st1, key_name(), c.pkg.name, join_lines(r2));
    let st2 = state_step(st1, l2);
    assert(st2 =~= ParseState { name: Some(c.pkg.name), ..st1 });

    // the optional description line
    let st3 = if c.pkg.description is Some {
        state_step(st2, kv_line(key_description(), quoted(c.pkg.description->Some_0)))
    } else {
        st2
    };
    assert(r2 =~= seg3 + r3);
    lemma_join_concat(seg3, r3);
    if c.pkg.description is Some {
        let d = c.pkg.description->Some_0;
        let l3 = kv_line(key_description(), quoted(d));
        assert(seg3 =~= seq![l3]);
        lemma_join_single(l3);
        assert(join_lines(r2) =~= l3 + seq!['\n'] + join_lines(r3));
        lemma_kv_text_step(st2, key_description(), d, join_lines(r3));
    } else {
        assert(seg3.len() == 0);
        assert(join_lines(seg3).len() == 0);
        assert(join_lines(r2) =~= join_lines(r3));
    }
    assert(st3 =~= ParseState { description: c.pkg.description, ..st2 });

    // the optional long_description line
    let st4 = if c.pkg.long_description is Some {
        state_step(st3, kv_line(key_long_description(), quoted(c.pkg.long_description->Some_0)))
    } else {
        st3
    };
    assert(r3 =~= seg4 + r4);
    lemma_join_concat(seg4, r4);
    if c.pkg.long_description is Some {
        let d = c.pkg.long_description->Some_0;
        let l4 = kv_line(key_long_description(), quoted(d));
        assert(seg4 =~= seq![l4]);
        lemma_join_single(l4);
        assert(join_lines(r3) =~= l4 + seq!['\n'] + join_lines(r4));
        lemma_kv_text_step(st3, key_long_description(), d, join_lines(r4));
    } else {
        assert(seg4.len() == 0);
        assert(join_lines(seg4).len() == 0);
        assert(join_lines(r3) =~= join_lines(r4));
    }
    assert(st4 =~= pkg_state(c));
}

/// Reading the `[bin]` section of a canonical document.
#[verifier::rlimit(100)]
#[verifier::spinoff_prover]
proof fn lemma_round_trip_bin(c: ConfigView)
    requires
        serializable(c),
    ensures
        fold_lines(pkg_state(c), split_lines(join_lines(bin_lines(c)))) == full_state(c),
{
    let seg5 = seq![Seq::<char>::empty()];
    let seg6 = seq![seq!['[', 'b', 'i', 'n', ']']];
    let l6 = seg6[0];
    let seg7 = seq![kv_line(key_files(), list_text(c.bin.files))];
    let l7 = seg7[0];
    let seg8 = opt_line(key_out_dir(), c.bin.out_dir);
    let seg9 = opt_line(key_out_file(), c.bin.out_file);
    let r5 = seg6 + seg7 + seg8 + seg9;
    let r6 = seg7 + seg8 + seg9;
    let r7 = seg8 + seg9;
    let r8 = seg9;
    let r9 = Seq::<Seq<char>>::empty();
    let st5 = pkg_state(c);

    // the blank separator line
    assert(bin_lines(c) =~= seg5 + r5);
    lemma_join_concat(seg5, r5);
    lemma_join_single(Seq::<char>::empty());
    assert(join_lines(bin_lines(c)) =~= Seq::<char>::empty() + seq!['\n'] + join_lines(r5));
    lemma_trimmed_clean(Seq::<char>::empty());
    assert(classify_line(Seq::<char>::empty()) is Blank);
    lemma_step_text(st5, Seq::<char>::empty(), join_lines(r5));
    assert(state_step(st5, Seq::<char>::empty()) =~= st5);

    // the [bin] header line
    assert(r5 =~= seg6 + r6);
    lemma_join_concat(seg6, r6);
    lemma_join_single(l6);
    assert(l6 =~= seq!['['] + table_bin() + seq![']']);
    assert(join_lines(r5) =~= (seq!['['] + table_bin() + seq![']']) + seq!['\n'] + join_lines(
        r6,
    ));
    lemma_header_text_step(st5, table_bin(), join_lines(r6));
    let st6 = state_step(st5, l6);
    assert(st6 =~= ParseState { table: TableKind::BinTable, ..st5 });

    // the files line
    assert(r6 =~= seg7 + r7);
    lemma_join_concat(seg7, r7);
    lemma_join_single(l7);
    assert(join_lines(r6) =~= l7 + seq!['\n'] + join_lines(r7));
    lemma_files_text_step(st6, c.bin.files, join_lines(r7));
    let st7 = state_step(st6, l7);
    assert(st7 =~= ParseState { files: Some(c.bin.files), ..st6 });

    // the optional out_dir line
    let st8 = if c.bin.out_dir is Some {
        state_step(st7, kv_line(key_out_dir(), quoted(c.bin.out_dir->Some_0)))
    } else {
        st7
    };
    assert(r7 =~= seg8 + r8);
    lemma_join_concat(seg8, r8);
    if c.bin.out_dir is Some {
        let d = c.bin.out_dir->Some_0;
        let l8 = kv_line(key_out_dir(), quoted(d));
        assert(seg8 =~= seq![l8]);
        lemma_join_single(l8);
        assert(join_lines(r7) =~= l8 + seq!['\n'] + join_lines(r8));
        lemma_kv_text_step(st7, key_out_dir(), d, join_lines(r8));
    } else {
        assert(seg8.len() == 0);
        assert(join_lines(seg8).len() == 0);
        assert(join_lines(r7) =~= join_lines(r8));
    }
    assert(st8 =~= ParseState { out_dir: c.bin.out_dir, ..st7 });

    // the optional out_file line
    let st9 = if c.bin.out_file is Some {
        state_step(st8, kv_line(key_out_file(), quoted(c.bin.out_file->Some_0)))
    } else {
        st8
    };
    assert(r8 =~= seg9 + r9);
    lemma_join_concat(seg9, r9);
    if c.bin.out_file is Some {
        let d = c.bin.out_file->Some_0;
        let l9 = kv_line(key_out_file(), quoted(d));
        assert(seg9 =~= seq![l9]);
        lemma_join_single(l9);
        assert(join_lines(r8) =~= l9 + seq!['\n'] + join_lines(r9));
        lemma_kv_text_step(st8, key_out_file(), d, join_lines(r9));
    } else {
        assert(seg9.len() == 0);
        assert(join_lines(seg9).len() == 0);
        assert(join_lines(r8) =~= join_lines(r9));
    }
    assert(st9 =~= full_state(c));

    // nothing is left but the final blank line
    assert(join_lines(r9).len() == 0);
    assert(join_lines(r9) =~= Seq::<char>::empty());
    lemma_end_text(st9);
}

/// THE round-trip law: serializing a configuration whose text fields are
/// all plain (nothing a quoted string cannot carry: no quote, backslash
/// or line break, and no comma in a file entry) and loading the text back
/// yields the same configuration, field for field.
pub proof fn lemma_config_round_trip(c: ConfigView)
    requires
        serializable(c),
    ensures
        parse_config_text(config_text(c)) == Some(c),
{
    lemma_round_trip_pkg(c);
    lemma_round_trip_bin(c);
    assert(finish_state(full_state(c))->Some_0 =~= c);
}

/// The configuration scaffolded for a new project carries the project
/// name, is serializable, and survives the round trip: loading the
/// generated `lion.toml` text yields it back.
pub proof fn lemma_default_config_round_trip(n: Seq<char>)
    requires
        plain_text(n),
    ensures
        default_config_view(n).pkg.name == n,
        serializable(default_config_view(n)),
        parse_config_text(config_text(default_config_view(n))) == Some(default_config_view(n)),
{
    let c = default_config_view(n);
    reveal_strlit("src/main.cpp");
    reveal_strlit("dist");
    reveal_strlit("out.exe");
    assert(plain_item("src/main.cpp"@));
    assert(plain_text(Seq::<char>::empty()));
    assert(plain_text("dist"@));
    assert(plain_text("out.exe"@));
    assert forall|i: int| 0 <= i < c.bin.files.len() implies plain_item(#[trigger] c.bin.files[i]) by {
        assert(c.bin.files[i] == "src/main.cpp"@);
    }
    lemma_config_round_trip(c);
}

/// A configuration that leaves both output pieces out resolves to the
/// default output path `dist/out.exe`.
pub proof fn lemma_default_out_path(c: ConfigView)
    requires
        c.bin.out_dir is None,
        c.bin.out_file is None,
    ensures
        out_path_of(c) == "dist/out.exe"@,
{
    reveal_strlit("dist");
    reveal_strlit("out.exe");
    reveal_strlit("/");
    reveal_strlit("dist/out.exe");
    assert(out_path_of(c) =~= "dist/out.exe"@);
}

} // verus!
