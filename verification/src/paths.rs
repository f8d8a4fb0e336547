//! File paths of reports and cleaned files.
//!
//! A path is read as text: its components are the pieces between `/`
//! separators, leaving out empty pieces and `.` except a `.` that begins a
//! relative path; a leading `/` makes it absolute.

use vstd::prelude::*;
use vstd::string::StringExecFns;
use crate::text::{chars_of, push_char};

verus! {

/// A finished piece becomes a component unless it is empty or `.`.
pub open spec fn push_component(cs: Seq<Seq<char>>, cur: Seq<char>) -> Seq<Seq<char>> {
    if cur.len() == 0 || cur == seq!['.'] {
        cs
    } else {
        cs.push(cur)
    }
}

/// The components finished so far, and the piece being read.
pub open spec fn split_state(s: Seq<char>) -> (Seq<Seq<char>>, Seq<char>)
    decreases s.len(),
{
    if s.len() == 0 {
        (Seq::empty(), Seq::empty())
    } else {
        let prev = split_state(s.drop_last());
        if s.last() == '/' {
            (push_component(prev.0, prev.1), Seq::empty())
        } else {
            (prev.0, prev.1.push(s.last()))
        }
    }
}

/// Whether a relative path begins with the current directory `.`.
pub open spec fn starts_at_cur_dir(s: Seq<char>) -> bool {
    s.len() >= 1 && s[0] == '.' && (s.len() == 1 || s[1] == '/')
}

/// The components of a path: the pieces between separators other than
/// empty ones and `.`, after a leading `.` where the path begins with one.
pub open spec fn components(s: Seq<char>) -> Seq<Seq<char>> {
    let cs = push_component(split_state(s).0, split_state(s).1);
    if starts_at_cur_dir(s) {
        seq![seq!['.']] + cs
    } else {
        cs
    }
}

/// Whether a path starts at the root.
pub open spec fn is_absolute(s: Seq<char>) -> bool {
    s.len() > 0 && s[0] == '/'
}

/// The components of `path` after those of `base`, when `base` is a prefix of
/// `path` component by component.
pub open spec fn spec_strip_prefix(path: Seq<char>, base: Seq<char>) -> Option<Seq<Seq<char>>> {
    let p = components(path);
    let b = components(base);
    if is_absolute(path) == is_absolute(base) && b.len() <= p.len() && p.take(b.len() as int) == b {
        Some(p.skip(b.len() as int))
    } else {
        None
    }
}

/// The last component, unless there is none or it is `.` or `..`.
pub open spec fn spec_file_name(cs: Seq<Seq<char>>) -> Option<Seq<char>> {
    if cs.len() == 0 || cs.last() == seq!['.', '.'] || cs.last() == seq!['.'] {
        None
    } else {
        Some(cs.last())
    }
}

/// The position of the last `.` of a name.
pub open spec fn last_dot(name: Seq<char>, i: int) -> Option<int>
    decreases i,
{
    if i <= 0 {
        None
    } else if name[i - 1] == '.' {
        Some(i - 1)
    } else {
        last_dot(name, i - 1)
    }
}

/// A file name without its last extension; a name whose only dot leads keeps it.
pub open spec fn spec_file_stem(name: Seq<char>) -> Seq<char> {
    match last_dot(name, name.len() as int) {
        Some(k) => if k == 0 { name } else { name.take(k) },
        None => name,
    }
}

/// The extension of a file name: what follows its last dot, unless that dot leads.
pub open spec fn spec_extension(name: Seq<char>) -> Option<Seq<char>> {
    match last_dot(name, name.len() as int) {
        Some(k) => if k == 0 { None } else { Some(name.skip(k + 1)) },
        None => None,
    }
}

/// The components joined by `/`.
pub open spec fn join_components(cs: Seq<Seq<char>>) -> Seq<char>
    decreases cs.len(),
{
    if cs.len() == 0 {
        Seq::empty()
    } else if cs.len() == 1 {
        cs[0]
    } else {
        join_components(cs.drop_last()) + seq!['/'] + cs.last()
    }
}

/// The smallest position where `pat` occurs in `s`.
pub open spec fn find_from(s: Seq<char>, pat: Seq<char>, i: int) -> Option<int>
    decreases s.len() + 1 - i,
{
    if i < 0 || i + pat.len() > s.len() {
        None
    } else if s.subrange(i, i + pat.len()) == pat {
        Some(i)
    } else {
        find_from(s, pat, i + 1)
    }
}

/// The text `.jsonl`.
pub open spec fn jsonl_pattern() -> Seq<char> {
    seq!['.', 'j', 's', 'o', 'n', 'l']
}

/// The components of `input` relative to `base`, or its file name alone, or `unknown`.
pub open spec fn relative_components(input: Seq<char>, base: Seq<char>) -> Seq<Seq<char>> {
    match spec_strip_prefix(input, base) {
        Some(rest) => rest,
        None => match spec_file_name(components(input)) {
            Some(name) => seq![name],
            None => seq!["unknown"@],
        },
    }
}

/// A file name prefixed by the parent components, if there are any.
pub open spec fn under_parent(rel: Seq<Seq<char>>, name: Seq<char>) -> Seq<char> {
    if rel.len() >= 2 {
        join_components(rel.drop_last()) + seq!['/'] + name
    } else {
        name
    }
}

/// The name of the cleaned copy of a training file: its path relative to the
/// training directory, with everything from the first `.jsonl` of the file
/// name on (or else its last extension) replaced by `.jsonl.gz`.
pub open spec fn spec_purified_filename(input: Seq<char>, base: Seq<char>) -> Seq<char> {
    let rel = relative_components(input, base);
    let filename = match spec_file_name(rel) {
        Some(n) => n,
        None => "unknown"@,
    };
    let base_name = match find_from(filename, jsonl_pattern(), 0) {
        Some(pos) => filename.take(pos),
        None => match spec_file_name(rel) {
            Some(n) => spec_file_stem(n),
            None => "unknown"@,
        },
    };
    under_parent(rel, base_name + ".jsonl.gz"@)
}

/// The dataset of a report: the first component of its path below the report
/// directory, or `unknown`.
pub open spec fn spec_dataset_name(report: Seq<char>, base: Seq<char>) -> Seq<char> {
    match spec_strip_prefix(report, base) {
        Some(rest) => if rest.len() > 0 { rest[0] } else { "unknown"@ },
        None => "unknown"@,
    }
}

/// Views of a list of character vectors.
pub open spec fn comp_views(v: Seq<Vec<char>>) -> Seq<Seq<char>> {
    v.map_values(|c: Vec<char>| c@)
}

fn is_dot(cur: &Vec<char>) -> (res: bool)
    ensures
        res == (cur@ == seq!['.']),
{
    if cur.len() == 1 && cur[0] == '.' {
        assert(cur@ =~= seq!['.']);
        true
    } else {
        false
    }
}

/// Splits a path into its components.
pub fn path_components(path: &str) -> (res: Vec<Vec<char>>)
    ensures
        comp_views(res@) == components(path@),
{
    let chars = chars_of(path);
    let mut cs: Vec<Vec<char>> = Vec::new();
    let mut cur: Vec<char> = Vec::new();
    let mut i: usize = 0;
    while i < chars.len()
        invariant
            i <= chars@.len(),
            chars@ == path@,
            (comp_views(cs@), cur@) == split_state(chars@.take(i as int)),
        decreases chars@.len() - i,
    {
        let c = chars[i];
        proof {
            assert(chars@.take(i + 1).drop_last() =~= chars@.take(i as int));
        }
        if c == '/' {
            if cur.len() != 0 && !is_dot(&cur) {
                let ghost before = cs@;
                cs.push(cur);
                proof {
                    assert(comp_views(cs@) =~= comp_views(before).push(split_state(chars@.take(i as int)).1));
                }
            } else {
                proof {
                    if cur@.len() == 0 {
                        assert(cur@ =~= Seq::<char>::empty());
                    }
                }
            }
            cur = Vec::new();
        } else {
            cur.push(c);
        }
        i = i + 1;
    }
    assert(chars@.take(chars@.len() as int) =~= chars@);
    if cur.len() != 0 && !is_dot(&cur) {
        let ghost before = cs@;
        cs.push(cur);
        assert(comp_views(cs@) =~= comp_views(before).push(split_state(path@).1));
    }
    if chars.len() >= 1 && chars[0] == '.' && (chars.len() == 1 || chars[1] == '/') {
        let ghost before = cs@;
        let dot: Vec<char> = vec!['.'];
        assert(dot@ =~= seq!['.']);
        cs.insert(0, dot);
        assert(comp_views(cs@) =~= seq![seq!['.']] + comp_views(before));
    }
    cs
}

fn clone_chars(v: &Vec<char>) -> (res: Vec<char>)
    ensures
        res@ == v@,
{
    let mut res: Vec<char> = Vec::new();
    let mut i: usize = 0;
    while i < v.len()
        invariant
            i <= v@.len(),
            res@ == v@.take(i as int),
        decreases v@.len() - i,
    {
        res.push(v[i]);
        proof {
            assert(res@ =~= v@.take(i + 1));
        }
        i = i + 1;
    }
    assert(v@.take(v@.len() as int) =~= v@);
    res
}

fn chars_equal(a: &Vec<char>, b: &Vec<char>) -> (res: bool)
    ensures
        res == (a@ == b@),
{
    if a.len() != b.len() {
        return false;
    }
    let mut i: usize = 0;
    while i < a.len()
        invariant
            i <= a@.len(),
            a@.len() == b@.len(),
            forall|j: int| 0 <= j < i ==> a@[j] == b@[j],
        decreases a@.len() - i,
    {
        if a[i] != b[i] {
            return false;
        }
        i = i + 1;
    }
    assert(a@ =~= b@);
    true
}

fn starts_with_slash(path: &str) -> (res: bool)
    ensures
        res == is_absolute(path@),
{
    let chars = chars_of(path);
    chars.len() > 0 && chars[0] == '/'
}

/// The components of `path` below `base`, if `base` is a prefix of it.
pub fn strip_prefix(path: &str, base: &str) -> (res: Option<Vec<Vec<char>>>)
    ensures
        match res {
            Some(rest) => spec_strip_prefix(path@, base@) == Some(comp_views(rest@)),
            None => spec_strip_prefix(path@, base@) is None,
        },
{
    if starts_with_slash(path) != starts_with_slash(base) {
        return None;
    }
    let p = path_components(path);
    let b = path_components(base);
    if b.len() > p.len() {
        return None;
    }
    let mut i: usize = 0;
    while i < b.len()
        invariant
            i <= b@.len() <= p@.len(),
            comp_views(p@) == components(path@),
            comp_views(b@) == components(base@),
            is_absolute(path@) == is_absolute(base@),
            forall|j: int| 0 <= j < i ==> p@[j]@ == b@[j]@,
        decreases b@.len() - i,
    {
        if !chars_equal(&p[i], &b[i]) {
            assert(comp_views(p@).take(b@.len() as int)[i as int] != comp_views(b@)[i as int]);
            assert(comp_views(p@).take(b@.len() as int) != comp_views(b@));
            return None;
        }
        i = i + 1;
    }
    assert(comp_views(p@).take(b@.len() as int) =~= comp_views(b@));
    let mut rest: Vec<Vec<char>> = Vec::new();
    let mut k: usize = b.len();
    while k < p.len()
        invariant
            b@.len() <= k <= p@.len(),
            comp_views(p@) == components(path@),
            comp_views(b@) == components(base@),
            comp_views(rest@) == comp_views(p@).subrange(b@.len() as int, k as int),
        decreases p@.len() - k,
    {
        let c = clone_chars(&p[k]);
        let ghost before = rest@;
        rest.push(c);
        proof {
            assert(comp_views(rest@) =~= comp_views(before).push(c@));
            assert(comp_views(p@)[k as int] == p@[k as int]@);
            assert(comp_views(rest@) =~= comp_views(p@).subrange(b@.len() as int, k + 1));
        }
        k = k + 1;
    }
    assert(comp_views(p@).skip(b@.len() as int) =~= comp_views(p@).subrange(b@.len() as int, p@.len() as int));
    Some(rest)
}


/// The file name of a path given by its components.
fn file_name_of(cs: &Vec<Vec<char>>) -> (res: Option<Vec<char>>)
    ensures
        match res {
            Some(n) => spec_file_name(comp_views(cs@)) == Some(n@),
            None => spec_file_name(comp_views(cs@)) is None,
        },
{
    if cs.len() == 0 {
        return None;
    }
    let last = &cs[cs.len() - 1];
    assert(comp_views(cs@).last() == last@);
    if last.len() == 2 && last[0] == '.' && last[1] == '.' {
        assert(last@ =~= seq!['.', '.']);
        return None;
    }
    if last.len() == 1 && last[0] == '.' {
        assert(last@ =~= seq!['.']);
        return None;
    }
    proof {
        if last@ == seq!['.', '.'] {
            assert(last@[0] == '.');
        }
        if last@ == seq!['.'] {
            assert(last@[0] == '.');
        }
    }
    Some(clone_chars(last))
}

fn last_dot_pos(name: &Vec<char>) -> (res: Option<usize>)
    ensures
        match res {
            Some(k) => last_dot(name@, name@.len() as int) == Some(k as int),
            None => last_dot(name@, name@.len() as int) is None,
        },
{
    let mut i = name.len();
    while i > 0
        invariant
            i <= name@.len(),
            last_dot(name@, i as int) == last_dot(name@, name@.len() as int),
        decreases i,
    {
        if name[i - 1] == '.' {
            return Some(i - 1);
        }
        i = i - 1;
    }
    None
}

proof fn lemma_last_dot_bound(name: Seq<char>, i: int)
    ensures
        last_dot(name, i) matches Some(k) ==> 0 <= k < i,
    decreases i,
{
    if i > 0 && name[i - 1] != '.' {
        lemma_last_dot_bound(name, i - 1);
    }
}

proof fn lemma_find_from_bound(s: Seq<char>, pat: Seq<char>, i: int)
    ensures
        find_from(s, pat, i) matches Some(k) ==> 0 <= k && k + pat.len() <= s.len(),
    decreases s.len() + 1 - i,
{
    if !(i < 0 || i + pat.len() > s.len()) && s.subrange(i, i + pat.len()) != pat {
        lemma_find_from_bound(s, pat, i + 1);
    }
}

fn prefix_chars(v: &Vec<char>, k: usize) -> (res: Vec<char>)
    requires
        k <= v@.len(),
    ensures
        res@ == v@.take(k as int),
{
    let mut res: Vec<char> = Vec::new();
    let mut i: usize = 0;
    while i < k
        invariant
            i <= k <= v@.len(),
            res@ == v@.take(i as int),
        decreases k - i,
    {
        res.push(v[i]);
        proof {
            assert(res@ =~= v@.take(i + 1));
        }
        i = i + 1;
    }
    res
}

/// The stem of a file name.
fn file_stem_of(name: &Vec<char>) -> (res: Vec<char>)
    ensures
        res@ == spec_file_stem(name@),
{
    proof {
        lemma_last_dot_bound(name@, name@.len() as int);
    }
    match last_dot_pos(name) {
        Some(k) => if k == 0 { clone_chars(name) } else { prefix_chars(name, k) },
        None => clone_chars(name),
    }
}

/// The position of the first `.jsonl` in a name.
fn find_jsonl(name: &Vec<char>) -> (res: Option<usize>)
    ensures
        match res {
            Some(k) => find_from(name@, jsonl_pattern(), 0) == Some(k as int),
            None => find_from(name@, jsonl_pattern(), 0) is None,
        },
{
    let pat: Vec<char> = vec!['.', 'j', 's', 'o', 'n', 'l'];
    assert(pat@ =~= jsonl_pattern());
    let mut i: usize = 0;
    let nl = name.len();
    while pat.len() <= nl && i <= nl - pat.len()
        invariant
            nl == name@.len(),
            pat@ == jsonl_pattern(),
            i <= name@.len() + 1,
            find_from(name@, pat@, i as int) == find_from(name@, pat@, 0),
        decreases name@.len() + 1 - i,
    {
        let mut same = true;
        let mut k: usize = 0;
        while k < pat.len()
            invariant
                nl == name@.len(),
                i + pat@.len() <= name@.len(),
                k <= pat@.len(),
                same == (forall|j: int| 0 <= j < k ==> name@[i + j] == pat@[j]),
            decreases pat@.len() - k,
        {
            if name[i + k] != pat[k] {
                same = false;
            }
            k = k + 1;
        }
        if same {
            assert(name@.subrange(i as int, i + pat@.len()) =~= pat@);
            return Some(i);
        }
        assert(name@.subrange(i as int, i + pat@.len()) != pat@) by {
            let j = choose|j: int| 0 <= j < pat@.len() && name@[i + j] != pat@[j];
            assert(name@.subrange(i as int, i + pat@.len())[j] != pat@[j]);
        }
        i = i + 1;
    }
    None
}

/// Appends the characters of `v` to a string.
pub(crate) fn append_chars(s: &mut String, v: &Vec<char>)
    ensures
        final(s)@ == old(s)@ + v@,
{
    let mut i: usize = 0;
    while i < v.len()
        invariant
            i <= v@.len(),
            s@ == old(s)@ + v@.take(i as int),
        decreases v@.len() - i,
    {
        push_char(s, v[i]);
        proof {
            assert(s@ =~= old(s)@ + v@.take(i + 1));
        }
        i = i + 1;
    }
    assert(v@.take(v@.len() as int) =~= v@);
}

/// Joins the first `k` components with `/`.
fn join_first(cs: &Vec<Vec<char>>, k: usize) -> (res: String)
    requires
        k <= cs@.len(),
    ensures
        res@ == join_components(comp_views(cs@).take(k as int)),
{
    let mut res = String::new();
    let mut i: usize = 0;
    while i < k
        invariant
            i <= k <= cs@.len(),
            res@ == join_components(comp_views(cs@).take(i as int)),
        decreases k - i,
    {
        let ghost t = comp_views(cs@).take(i + 1);
        proof {
            assert(t.drop_last() =~= comp_views(cs@).take(i as int));
        }
        if i > 0 {
            push_char(&mut res, '/');
        }
        append_chars(&mut res, &cs[i]);
        proof {
            if i == 0 {
                assert(res@ =~= t[0]);
            } else {
                assert(res@ =~= join_components(t.drop_last()) + seq!['/'] + t.last());
            }
        }
        i = i + 1;
    }
    res
}

fn relative_of(input_file: &str, base_input_dir: &str) -> (res: Vec<Vec<char>>)
    ensures
        comp_views(res@) == relative_components(input_file@, base_input_dir@),
{
    match strip_prefix(input_file, base_input_dir) {
        Some(rest) => rest,
        None => {
            let cs = path_components(input_file);
            let mut res: Vec<Vec<char>> = Vec::new();
            match file_name_of(&cs) {
                Some(n) => {
                    let ghost nv = n@;
                    res.push(n);
                    assert(comp_views(res@) =~= seq![nv]);
                },
                None => {
                    let u = chars_of("unknown");
                    let ghost uv = u@;
                    res.push(u);
                    assert(comp_views(res@) =~= seq![uv]);
                },
            }
            res
        },
    }
}

/// The path, relative to the training directory, of the cleaned copy of a
/// training file: the file name up to its first `.jsonl` (or its stem when it
/// has none) followed by `.jsonl.gz`, under the same parent directories.
pub fn generate_purified_filename(input_file: &str, base_input_dir: &str) -> (res: String)
    ensures
        res@ == spec_purified_filename(input_file@, base_input_dir@),
{
    let rel = relative_of(input_file, base_input_dir);
    let filename: Vec<char> = match file_name_of(&rel) {
        Some(n) => n,
        None => chars_of("unknown"),
    };
    let mut out = String::new();
    if rel.len() >= 2 {
        out = join_first(&rel, rel.len() - 1);
        push_char(&mut out, '/');
        proof {
            assert(comp_views(rel@).take(rel@.len() - 1) =~= comp_views(rel@).drop_last());
        }
    }
    let ghost prefix = out@;
    proof {
        lemma_find_from_bound(filename@, jsonl_pattern(), 0);
    }
    match find_jsonl(&filename) {
        Some(pos) => {
            let base_name = prefix_chars(&filename, pos);
            append_chars(&mut out, &base_name);
        },
        None => {
            match file_name_of(&rel) {
                Some(n) => {
                    let stem = file_stem_of(&n);
                    append_chars(&mut out, &stem);
                },
                None => {
                    let u = chars_of("unknown");
                    append_chars(&mut out, &u);
                },
            }
        },
    }
    let suffix = chars_of(".jsonl.gz");
    append_chars(&mut out, &suffix);
    proof {
        let rv = comp_views(rel@);
        if rv.len() >= 2 {
            assert(out@ =~= under_parent(rv, out@.skip(prefix.len() as int)));
        } else {
            assert(prefix =~= Seq::<char>::empty());
        }
    }
    out
}

/// The dataset a report file belongs to: the first directory of its path
/// below the report directory, or `unknown`.
pub fn extract_dataset_name_from_report_path(report_file: &str, base_dir: &str) -> (res: String)
    ensures
        res@ == spec_dataset_name(report_file@, base_dir@),
{
    match strip_prefix(report_file, base_dir) {
        Some(rest) => {
            if rest.len() > 0 {
                let mut out = String::new();
                append_chars(&mut out, &rest[0]);
                assert(out@ =~= rest@[0]@);
                out
            } else {
                String::from_str("unknown")
            }
        },
        None => String::from_str("unknown"),
    }
}

/// The name of the report of a training file: its path relative to the
/// training directory with the file stem, the mode and the written threshold
/// joined by dashes, and `.jsonl`, under the same parent directories.
pub open spec fn spec_report_filename(input: Seq<char>, base: Seq<char>, mode: Seq<char>, threshold: Seq<char>) -> Seq<char> {
    let rel = relative_components(input, base);
    let stem = match spec_file_name(rel) {
        Some(n) => spec_file_stem(n),
        None => "unknown"@,
    };
    under_parent(rel, stem + "-"@ + mode + "-"@ + threshold + ".jsonl"@)
}

/// The path, relative to the training directory, of the report of a
/// training file: `<stem>-<mode>-<threshold>.jsonl` under the same parent
/// directories, where `threshold_text` is the threshold as written with two
/// decimals.
pub fn generate_report_filename(input_file: &str, mode: &str, threshold_text: &str, base_input_dir: &str) -> (res: String)
    ensures
        res@ == spec_report_filename(input_file@, base_input_dir@, mode@, threshold_text@),
{
    let rel = relative_of(input_file, base_input_dir);
    let mut out = String::new();
    if rel.len() >= 2 {
        out = join_first(&rel, rel.len() - 1);
        push_char(&mut out, '/');
        proof {
            assert(comp_views(rel@).take(rel@.len() - 1) =~= comp_views(rel@).drop_last());
        }
    }
    let ghost prefix = out@;
    let stem = match file_name_of(&rel) {
        Some(n) => file_stem_of(&n),
        None => chars_of("unknown"),
    };
    append_chars(&mut out, &stem);
    push_char(&mut out, '-');
    let m = chars_of(mode);
    append_chars(&mut out, &m);
    push_char(&mut out, '-');
    let t = chars_of(threshold_text);
    append_chars(&mut out, &t);
    let suffix = chars_of(".jsonl");
    append_chars(&mut out, &suffix);
    proof {
        reveal_strlit("-");
        let rv = comp_views(rel@);
        assert(out@.skip(prefix.len() as int) =~= stem@ + "-"@ + mode@ + "-"@ + threshold_text@ + ".jsonl"@);
        if rv.len() >= 2 {
            assert(out@ =~= under_parent(rv, out@.skip(prefix.len() as int)));
        } else {
            assert(prefix =~= Seq::<char>::empty());
            assert(out@ =~= out@.skip(0));
        }
    }
    out
}

/// Whether an extension marks a compressed file whose stem names the data:
/// `gz`, `zst` or `zstd`.
pub open spec fn is_stem_extension(e: Seq<char>) -> bool {
    e == "gz"@ || e == "zst"@ || e == "zstd"@
}

/// The name under which a training file is reported: its stem when its
/// extension is `gz`, `zst` or `zstd`, else its file name; `unknown` when the
/// path has no file name.
pub open spec fn spec_base_filename(path: Seq<char>) -> Seq<char> {
    match spec_file_name(components(path)) {
        None => "unknown"@,
        Some(n) => match spec_extension(n) {
            Some(e) => if is_stem_extension(e) { spec_file_stem(n) } else { n },
            None => n,
        },
    }
}

fn chars_are(v: &Vec<char>, lo: usize, lit: &str) -> (res: bool)
    requires
        lo <= v@.len(),
    ensures
        res == (v@.skip(lo as int) == lit@),
{
    let l = chars_of(lit);
    if v.len() - lo != l.len() {
        assert(v@.skip(lo as int).len() != lit@.len());
        return false;
    }
    let vl = v.len();
    let mut i: usize = 0;
    while i < l.len()
        invariant
            i <= l@.len(),
            vl == v@.len(),
            lo + l@.len() == v@.len(),
            l@ == lit@,
            forall|j: int| 0 <= j < i ==> v@[lo + j] == l@[j],
        decreases l@.len() - i,
    {
        if v[lo + i] != l[i] {
            assert(v@.skip(lo as int)[i as int] != lit@[i as int]);
            return false;
        }
        i = i + 1;
    }
    assert(v@.skip(lo as int) =~= lit@);
    true
}

/// The name under which a training file is reported: its stem when it is
/// compressed with gzip or zstd, else its file name.
pub fn extract_base_filename(file_path: &str) -> (res: String)
    ensures
        res@ == spec_base_filename(file_path@),
{
    let cs = path_components(file_path);
    let name = match file_name_of(&cs) {
        Some(n) => n,
        None => {
            return String::from_str("unknown");
        },
    };
    proof {
        lemma_last_dot_bound(name@, name@.len() as int);
    }
    let _nl = name.len();
    let stem_ext = match last_dot_pos(&name) {
        Some(k) => k > 0 && (chars_are(&name, k + 1, "gz") || chars_are(&name, k + 1, "zst")
            || chars_are(&name, k + 1, "zstd")),
        None => false,
    };
    let chosen = if stem_ext {
        file_stem_of(&name)
    } else {
        name
    };
    let mut out = String::new();
    append_chars(&mut out, &chosen);
    out
}

/// A path joined to a directory, as `Path::join` does: an absolute path
/// or an empty directory gives the path itself; otherwise a `/` goes
/// between them unless the directory ends with one.
pub open spec fn spec_join(dir: Seq<char>, path: Seq<char>) -> Seq<char> {
    if is_absolute(path) || dir.len() == 0 {
        path
    } else if dir.last() == '/' {
        dir + path
    } else {
        dir + seq!['/'] + path
    }
}

/// The components of a path without a leading `.`.
pub open spec fn raw_components(s: Seq<char>) -> Seq<Seq<char>> {
    push_component(split_state(s).0, split_state(s).1)
}

/// Whether a piece can be a component after the first: not empty, without
/// `/`, and not `.`.
pub open spec fn inner_component(c: Seq<char>) -> bool {
    c.len() > 0 && !c.contains('/') && c != seq!['.']
}

/// Whether pieces are the components of a relative path: each has no `/`
/// and is not empty, and only the first may be `.`.
pub open spec fn valid_components(cs: Seq<Seq<char>>) -> bool {
    forall|i: int| 0 <= i < cs.len() ==> (#[trigger] cs[i]).len() > 0 && !cs[i].contains('/') && (cs[i] == seq!['.']
        ==> i == 0)
}

proof fn lemma_split_valid(s: Seq<char>)
    ensures
        forall|i: int| 0 <= i < split_state(s).0.len() ==> inner_component(#[trigger] split_state(s).0[i]),
        !split_state(s).1.contains('/'),
    decreases s.len(),
{
    if s.len() > 0 {
        lemma_split_valid(s.drop_last());
        let prev = split_state(s.drop_last());
        if s.last() != '/' {
            assert forall|j: int| 0 <= j < prev.1.push(s.last()).len() implies prev.1.push(s.last())[j] != '/' by {
                if j < prev.1.len() {
                    assert(prev.1.push(s.last())[j] == prev.1[j]);
                }
            }
        }
    }
}

proof fn lemma_split_concat(x: Seq<char>, y: Seq<char>)
    requires
        split_state(x).1.len() == 0,
    ensures
        split_state(x + y) == (split_state(x).0 + split_state(y).0, split_state(y).1),
    decreases y.len(),
{
    if y.len() == 0 {
        assert(x + y =~= x);
        assert(split_state(x).0 + Seq::<Seq<char>>::empty() =~= split_state(x).0);
        assert(split_state(x).1 =~= Seq::<char>::empty());
    } else {
        assert((x + y).drop_last() =~= x + y.drop_last());
        lemma_split_concat(x, y.drop_last());
        let prev = split_state(y.drop_last());
        let xs = split_state(x).0;
        if y.last() == '/' {
            assert(push_component(xs + prev.0, prev.1) =~= xs + push_component(prev.0, prev.1));
        }
    }
}

proof fn lemma_split_plain(c: Seq<char>)
    requires
        !c.contains('/'),
    ensures
        split_state(c) == (Seq::<Seq<char>>::empty(), c),
    decreases c.len(),
{
    if c.len() > 0 {
        assert(!c.drop_last().contains('/')) by {
            assert forall|j: int| 0 <= j < c.drop_last().len() implies c.drop_last()[j] != '/' by {
                assert(c.drop_last()[j] == c[j]);
            }
        }
        lemma_split_plain(c.drop_last());
        assert(c[c.len() - 1] != '/');
        assert(c.drop_last().push(c.last()) =~= c);
    }
}

proof fn lemma_raw_concat(x: Seq<char>, y: Seq<char>)
    ensures
        raw_components(x + seq!['/'] + y) == raw_components(x) + raw_components(y),
{
    let xs = x + seq!['/'];
    assert(xs.drop_last() =~= x);
    assert(split_state(xs).1.len() == 0);
    lemma_split_concat(xs, y);
    assert(x + seq!['/'] + y =~= xs + y);
    let a = split_state(xs).0;
    let b = split_state(y);
    assert(push_component(a + b.0, b.1) =~= a + push_component(b.0, b.1));
    assert(a == raw_components(x));
}

/// The text of valid components joined by `/` reads back as those
/// components.
proof fn lemma_parse_join(cs: Seq<Seq<char>>)
    requires
        cs.len() >= 1,
        valid_components(cs),
    ensures
        components(join_components(cs)) == cs,
        !is_absolute(join_components(cs)),
        cs[0] != seq!['.'] ==> !starts_at_cur_dir(join_components(cs)),
        join_components(cs).len() > 0 && join_components(cs)[0] == cs[0][0],
    decreases cs.len(),
{
    let j = join_components(cs);
    if cs.len() == 1 {
        assert(cs[0].len() > 0);
        lemma_split_plain(cs[0]);
        if cs[0] == seq!['.'] {
            assert(starts_at_cur_dir(j));
            assert(raw_components(j) =~= Seq::<Seq<char>>::empty());
            assert(components(j) =~= cs);
        } else {
            if starts_at_cur_dir(j) {
                if j.len() == 1 {
                    assert(cs[0] =~= seq!['.']);
                } else {
                    assert(cs[0].contains('/'));
                }
            }
            assert(components(j) =~= cs);
        }
    } else {
        let d = cs.drop_last();
        assert forall|i: int| 0 <= i < d.len() implies (#[trigger] d[i]).len() > 0 && !d[i].contains('/') && (d[i]
            == seq!['.'] ==> i == 0) by {
            assert(d[i] == cs[i]);
        }
        lemma_parse_join(d);
        let last = cs.last();
        assert(last == cs[cs.len() - 1]);
        lemma_split_plain(last);
        lemma_raw_concat(join_components(d), last);
        assert(j == join_components(d) + seq!['/'] + last);
        assert(raw_components(last) =~= seq![last]);
        assert(d[0] == cs[0]);
        let jd = join_components(d);
        assert(j[0] == jd[0]);
        if starts_at_cur_dir(jd) {
            assert(starts_at_cur_dir(j)) by {
                if jd.len() == 1 {
                    assert(j[1] == '/');
                } else {
                    assert(j[1] == jd[1]);
                }
            }
            assert(components(j) =~= seq![seq!['.']] + (raw_components(jd) + seq![last]));
            assert(components(jd) == seq![seq!['.']] + raw_components(jd));
            assert(components(j) =~= components(jd) + seq![last]);
        } else {
            if starts_at_cur_dir(j) {
                if jd.len() == 1 {
                    assert(starts_at_cur_dir(jd));
                } else {
                    assert(j[1] == jd[1]);
                }
            }
            assert(components(j) =~= components(jd) + seq![last]);
        }
        assert(d.push(last) =~= cs);
    }
}

proof fn lemma_components_valid(s: Seq<char>)
    ensures
        valid_components(components(s)),
        components(s).len() > 0 && components(s)[0] == seq!['.'] ==> starts_at_cur_dir(s) && !is_absolute(s),
        forall|i: int| 0 < i < components(s).len() ==> inner_component(#[trigger] components(s)[i]),
        !starts_at_cur_dir(s) ==> forall|i: int| 0 <= i < components(s).len() ==> inner_component(
            #[trigger] components(s)[i],
        ),
{
    lemma_split_valid(s);
    let st = split_state(s);
    let raw = raw_components(s);
    assert forall|i: int| 0 <= i < raw.len() implies inner_component(#[trigger] raw[i]) by {
        if i < st.0.len() {
            assert(raw[i] == st.0[i]);
        } else {
            assert(raw[i] == st.1);
        }
    }
    if starts_at_cur_dir(s) {
        let cs = components(s);
        assert(cs == seq![seq!['.']] + raw);
        assert(!seq!['.'].contains('/')) by {
            assert forall|j: int| 0 <= j < seq!['.'].len() implies seq!['.'][j] != '/' by {}
        }
        assert forall|i: int| 0 < i < cs.len() implies inner_component(#[trigger] cs[i]) by {
            assert(cs[i] == raw[i - 1]);
        }
    }
}

proof fn lemma_prefix_pieces(s: Seq<char>, n: int)
    requires
        s.len() > 0,
        !is_absolute(s),
        1 <= n <= s.len(),
    ensures
        split_state(s.take(n)).0.len() > 0 || split_state(s.take(n)).1 == s.take(n) || starts_at_cur_dir(s),
    decreases n,
{
    let t = s.take(n);
    if n == 1 {
        assert(t.drop_last() =~= Seq::<char>::empty());
        assert(t.last() == s[0]);
        assert(s[0] != '/');
        let e = split_state(t.drop_last());
        assert(e.1 =~= Seq::<char>::empty());
        assert(split_state(t).1 == e.1.push(s[0]));
        assert(e.1.push(s[0]) =~= t);
    } else {
        lemma_prefix_pieces(s, n - 1);
        let u = s.take(n - 1);
        assert(t.drop_last() =~= u);
        assert(t.last() == s[n - 1]);
        let prev = split_state(u);
        if prev.0.len() > 0 {
        } else if prev.1 == u {
            if s[n - 1] == '/' {
                if u == seq!['.'] {
                    assert(s[0] == u[0]);
                    assert(starts_at_cur_dir(s));
                } else {
                    assert(u.len() > 0);
                }
            } else {
                assert(prev.1.push(s[n - 1]) =~= t);
            }
        }
    }
}

proof fn lemma_relative_has_components(s: Seq<char>)
    requires
        s.len() > 0,
        !is_absolute(s),
    ensures
        components(s).len() > 0,
{
    lemma_prefix_pieces(s, s.len() as int);
    assert(s.take(s.len() as int) =~= s);
}

proof fn lemma_components_join(dir: Seq<char>, path: Seq<char>)
    requires
        dir.len() > 0,
        !is_absolute(path),
    ensures
        components(spec_join(dir, path)) == components(dir) + raw_components(path),
        is_absolute(spec_join(dir, path)) == is_absolute(dir),
        spec_join(dir, path).len() > 0,
{
    let j = spec_join(dir, path);
    if dir.last() == '/' {
        assert(dir.drop_last().push(dir.last()) =~= dir);
        assert(split_state(dir).1.len() == 0);
        lemma_split_concat(dir, path);
        let d0 = split_state(dir).0;
        let p = split_state(path);
        assert(push_component(d0 + p.0, p.1) =~= d0 + push_component(p.0, p.1));
        assert(raw_components(dir) == d0);
        assert(j[0] == dir[0]);
        if dir.len() > 1 {
            assert(j[1] == dir[1]);
        }
        assert(starts_at_cur_dir(j) == starts_at_cur_dir(dir));
        if starts_at_cur_dir(dir) {
            assert(components(j) =~= components(dir) + raw_components(path));
        } else {
            assert(components(j) =~= components(dir) + raw_components(path));
        }
    } else {
        lemma_raw_concat(dir, path);
        assert(j[0] == dir[0]);
        if dir.len() > 1 {
            assert(j[1] == dir[1]);
        } else {
            assert(j[1] == '/');
        }
        assert(starts_at_cur_dir(j) == starts_at_cur_dir(dir));
        if starts_at_cur_dir(dir) {
            assert(components(j) =~= components(dir) + raw_components(path));
        } else {
            assert(components(j) =~= components(dir) + raw_components(path));
        }
    }
}

/// Whether `pat` occurs in `s` at `j`.
pub open spec fn matches_at(s: Seq<char>, pat: Seq<char>, j: int) -> bool {
    s.subrange(j, j + pat.len()) == pat
}

proof fn lemma_find_from_none(s: Seq<char>, pat: Seq<char>, i: int)
    requires
        0 <= i,
        find_from(s, pat, i) is None,
    ensures
        forall|j: int| i <= j && j + pat.len() <= s.len() ==> !#[trigger] matches_at(s, pat, j),
    decreases s.len() + 1 - i,
{
    if i + pat.len() <= s.len() {
        lemma_find_from_none(s, pat, i + 1);
    }
}

proof fn lemma_find_from_some(s: Seq<char>, pat: Seq<char>, i: int, k: int)
    requires
        0 <= i,
        find_from(s, pat, i) == Some(k),
    ensures
        i <= k,
        forall|j: int| i <= j < k ==> !#[trigger] matches_at(s, pat, j),
    decreases s.len() + 1 - i,
{
    if i + pat.len() <= s.len() && s.subrange(i, i + pat.len()) != pat {
        lemma_find_from_some(s, pat, i + 1, k);
    }
}

proof fn lemma_find_first(s: Seq<char>, pat: Seq<char>, i: int, k: int)
    requires
        0 <= i <= k,
        k + pat.len() <= s.len(),
        s.subrange(k, k + pat.len()) == pat,
        forall|j: int| i <= j < k ==> !#[trigger] matches_at(s, pat, j),
    ensures
        find_from(s, pat, i) == Some(k),
    decreases k - i,
{
    if i < k {
        assert(!matches_at(s, pat, i));
        lemma_find_first(s, pat, i + 1, k);
    }
}

/// Whether `.jsonl` occurs nowhere in a text.
pub open spec fn free_of_jsonl(b: Seq<char>) -> bool {
    forall|j: int| 0 <= j && j + 6 <= b.len() ==> !#[trigger] matches_at(b, jsonl_pattern(), j)
}

proof fn lemma_jsonl_suffix_found(b: Seq<char>)
    requires
        free_of_jsonl(b),
    ensures
        find_from(b + ".jsonl.gz"@, jsonl_pattern(), 0) == Some(b.len() as int),
{
    reveal_strlit(".jsonl.gz");
    let s = b + ".jsonl.gz"@;
    let pat = jsonl_pattern();
    assert forall|j: int| 0 <= j < b.len() implies !#[trigger] matches_at(s, pat, j) by {
        if j + 6 <= b.len() {
            assert(s.subrange(j, j + 6) =~= b.subrange(j, j + 6));
            assert(!matches_at(b, pat, j));
        } else {
            let t = b.len() - j;
            assert(s.subrange(j, j + 6)[t] == s[b.len() as int]);
            assert(s[b.len() as int] == '.');
            assert(pat[t] != '.');
        }
    }
    assert(s.subrange(b.len() as int, b.len() + 6int) =~= pat);
    lemma_find_first(s, pat, 0, b.len() as int);
}

proof fn lemma_prefix_free(name: Seq<char>, k: int)
    requires
        0 <= k <= name.len(),
        forall|j: int| 0 <= j && j + 6 <= name.len() && j < k ==> !#[trigger] matches_at(name, jsonl_pattern(), j),
        !name.contains('/'),
    ensures
        free_of_jsonl(name.take(k)),
        !name.take(k).contains('/'),
{
    assert forall|j: int| 0 <= j && j + 6 <= name.take(k).len() implies !#[trigger] matches_at(
        name.take(k),
        jsonl_pattern(),
        j,
    ) by {
        assert(name.take(k).subrange(j, j + 6) =~= name.subrange(j, j + 6));
        assert(!matches_at(name, jsonl_pattern(), j));
    }
    assert forall|j: int| 0 <= j < name.take(k).len() implies name.take(k)[j] != '/' by {
        assert(name.take(k)[j] == name[j]);
    }
}

/// The file name that naming a cleaned file starts from.
pub open spec fn name_of(rel: Seq<Seq<char>>) -> Seq<char> {
    match spec_file_name(rel) {
        Some(n) => n,
        None => "unknown"@,
    }
}

/// The part of the file name that the cleaned name keeps.
pub open spec fn stem_of(rel: Seq<Seq<char>>) -> Seq<char> {
    match find_from(name_of(rel), jsonl_pattern(), 0) {
        Some(pos) => name_of(rel).take(pos),
        None => match spec_file_name(rel) {
            Some(n) => spec_file_stem(n),
            None => "unknown"@,
        },
    }
}

/// The components of a cleaned name: the parents, then the new file name.
pub open spec fn renamed(rel: Seq<Seq<char>>, name: Seq<char>) -> Seq<Seq<char>> {
    if rel.len() >= 2 {
        rel.drop_last().push(name)
    } else {
        seq![name]
    }
}

proof fn lemma_rel_valid(input: Seq<char>, base: Seq<char>)
    ensures
        valid_components(relative_components(input, base)),
        base.len() > 0 && relative_components(input, base).len() > 0 ==> relative_components(input, base)[0]
            != seq!['.'],
{
    reveal_strlit("unknown");
    let p = components(input);
    let b = components(base);
    lemma_components_valid(input);
    lemma_components_valid(base);
    let rel = relative_components(input, base);
    match spec_strip_prefix(input, base) {
        Some(rest) => {
            assert(rest == p.skip(b.len() as int));
            assert forall|i: int| 0 <= i < rest.len() implies (#[trigger] rest[i]).len() > 0 && !rest[i].contains('/')
                && (rest[i] == seq!['.'] ==> i == 0) by {
                assert(rest[i] == p[b.len() + i]);
            }
            if base.len() > 0 && rest.len() > 0 && rest[0] == seq!['.'] {
                assert(p[b.len() as int] == rest[0]);
                assert(b.len() == 0);
                if !is_absolute(base) {
                    lemma_relative_has_components(base);
                }
                assert(is_absolute(base));
                assert(!is_absolute(input));
            }
        },
        None => {
            match spec_file_name(p) {
                Some(n) => {
                    assert(n == p[p.len() - 1]);
                    assert(rel =~= seq![n]);
                },
                None => {
                    assert(rel =~= seq!["unknown"@]);
                    assert(!"unknown"@.contains('/')) by {
                        assert forall|j: int| 0 <= j < "unknown"@.len() implies "unknown"@[j] != '/' by {}
                    }
                },
            }
        },
    }
}

proof fn lemma_stem_free(rel: Seq<Seq<char>>)
    requires
        valid_components(rel),
    ensures
        free_of_jsonl(stem_of(rel)),
        !stem_of(rel).contains('/'),
{
    reveal_strlit("unknown");
    let pat = jsonl_pattern();
    let filename = name_of(rel);
    assert(!filename.contains('/')) by {
        if spec_file_name(rel) is Some {
            assert(filename == rel[rel.len() - 1]);
        } else {
            assert forall|j: int| 0 <= j < "unknown"@.len() implies "unknown"@[j] != '/' by {}
        }
    }
    match find_from(filename, pat, 0) {
        Some(pos) => {
            lemma_find_from_some(filename, pat, 0, pos);
            lemma_find_from_bound(filename, pat, 0);
            lemma_prefix_free(filename, pos);
        },
        None => {
            lemma_find_from_none(filename, pat, 0);
            match spec_file_name(rel) {
                Some(n) => {
                    assert(n == filename);
                    lemma_last_dot_bound(n, n.len() as int);
                    match last_dot(n, n.len() as int) {
                        Some(k) => {
                            if k == 0 {
                                lemma_prefix_free(n, n.len() as int);
                                assert(n.take(n.len() as int) =~= n);
                            } else {
                                lemma_prefix_free(n, k);
                            }
                        },
                        None => {
                            lemma_prefix_free(n, n.len() as int);
                            assert(n.take(n.len() as int) =~= n);
                        },
                    }
                },
                None => {
                    lemma_prefix_free(filename, filename.len() as int);
                    assert(filename.take(filename.len() as int) =~= filename);
                },
            }
        },
    }
}

#[verifier::spinoff_prover]
proof fn lemma_rejoin(base: Seq<char>, rel: Seq<Seq<char>>, name: Seq<char>)
    requires
        valid_components(rel),
        inner_component(name),
        base.len() > 0 && rel.len() > 0 ==> rel[0] != seq!['.'],
    ensures
        relative_components(spec_join(base, under_parent(rel, name)), base) == renamed(rel, name),
        !is_absolute(under_parent(rel, name)),
{
    let rel2 = renamed(rel, name);
    let r = under_parent(rel, name);
    let b = components(base);
    assert(valid_components(rel2)) by {
        assert forall|i: int| 0 <= i < rel2.len() implies (#[trigger] rel2[i]).len() > 0 && !rel2[i].contains('/') && (
        rel2[i] == seq!['.'] ==> i == 0) by {
            if i < rel2.len() - 1 {
                assert(rel2[i] == rel[i]);
            }
        }
    }
    assert(r == join_components(rel2)) by {
        if rel.len() >= 2 {
            assert(rel2.drop_last() =~= rel.drop_last());
            assert(rel2.last() == name);
        }
    }
    lemma_parse_join(rel2);
    let j = spec_join(base, r);
    if base.len() == 0 {
        assert(j == r);
        assert(split_state(base) == (Seq::<Seq<char>>::empty(), Seq::<char>::empty()));
        assert(b =~= Seq::<Seq<char>>::empty());
        assert(components(j).take(0) =~= b);
        assert(components(j).skip(0) =~= rel2);
    } else {
        assert(rel2[0] != seq!['.']) by {
            if rel.len() >= 2 {
                assert(rel2[0] == rel[0]);
            }
        }
        lemma_components_join(base, r);
        assert(!starts_at_cur_dir(r));
        assert(raw_components(r) == components(r));
        let pj = components(j);
        assert(pj == b + rel2);
        assert(pj.take(b.len() as int) =~= b);
        assert(pj.skip(b.len() as int) =~= rel2);
    }
}

/// A cleaned file's name is relative and ends in `.jsonl.gz`; naming the
/// file once more, from where the first naming put it under the training
/// directory, gives the same name.
#[verifier::spinoff_prover]
pub proof fn lemma_purified_filename_fixed(input: Seq<char>, base: Seq<char>)
    ensures
        !is_absolute(spec_purified_filename(input, base)),
        spec_purified_filename(input, base).len() >= 9,
        spec_purified_filename(input, base).skip(spec_purified_filename(input, base).len() - 9) == ".jsonl.gz"@,
        spec_purified_filename(spec_join(base, spec_purified_filename(input, base)), base)
            == spec_purified_filename(input, base),
{
    reveal_strlit(".jsonl.gz");
    let rel = relative_components(input, base);
    lemma_rel_valid(input, base);
    lemma_stem_free(rel);
    let base_name = stem_of(rel);
    let name = base_name + ".jsonl.gz"@;
    assert(spec_purified_filename(input, base) == under_parent(rel, name));
    assert(inner_component(name)) by {
        assert forall|j: int| 0 <= j < name.len() implies name[j] != '/' by {
            if j < base_name.len() {
                assert(name[j] == base_name[j]);
            }
        }
        assert(name.len() >= 9);
        if name == seq!['.'] {
            assert(name.len() == 1);
        }
    }
    lemma_rejoin(base, rel, name);
    let rel2 = renamed(rel, name);
    let j = spec_join(base, under_parent(rel, name));
    assert(spec_file_name(rel2) == Some(name)) by {
        assert(rel2.last() == name);
        if name == seq!['.', '.'] {
            assert(name.len() == 2);
        }
        if name == seq!['.'] {
            assert(name.len() == 1);
        }
    }
    assert(name_of(rel2) == name);
    lemma_jsonl_suffix_found(base_name);
    assert(name.take(base_name.len() as int) =~= base_name);
    assert(stem_of(rel2) == base_name);
    assert(spec_purified_filename(j, base) == under_parent(rel2, name));
    if rel.len() >= 2 {
        assert(rel2.drop_last() =~= rel.drop_last());
    }
    let r = under_parent(rel, name);
    if rel.len() >= 2 {
        assert(r.skip(r.len() - 9) =~= name.skip(name.len() - 9));
    }
    assert(name.skip(name.len() - 9) =~= ".jsonl.gz"@);
}

} // verus!
