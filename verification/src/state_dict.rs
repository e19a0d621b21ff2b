//! Layout of a saved state dict: one `.npy` file per named parameter and a
//! `state.tsv` manifest of `name<TAB>file` lines, and the matching of a
//! manifest against a model's parameter names when loading.

use vstd::prelude::*;

use crate::error::{push_number, Result, TensorError};
use crate::memory_transformer::string_views;
use crate::text::{
    all_white_space, char_is_whitespace, chars_of, debug_quoted, decimal, decimal_u64, is_white_space,
    lemma_decimal_digits, push_debug_quoted, str_eq,
};

verus! {

broadcast use vstd::string::group_string_axioms;

// ---------------------------------------------------------------------------
// File names and the manifest text
// ---------------------------------------------------------------------------

/// ASCII letters and digits, `_` and `-` stay in a file name.
pub open spec fn is_state_name_char(c: char) -> bool {
    ||| '0' <= c <= '9'
    ||| 'A' <= c <= 'Z'
    ||| 'a' <= c <= 'z'
    ||| c == '_'
    ||| c == '-'
}

/// `name` with every other character replaced by `_`.
pub open spec fn sanitize_spec(name: Seq<char>) -> Seq<char> {
    name.map_values(|c: char| if is_state_name_char(c) { c } else { '_' })
}

/// `digits` padded on the left with zeros to at least four characters.
pub open spec fn zero_pad4(digits: Seq<char>) -> Seq<char> {
    if digits.len() >= 4 {
        digits
    } else {
        Seq::new((4 - digits.len()) as nat, |i: int| '0') + digits
    }
}

/// File of parameter `index` called `name`: the zero-padded index, `_`, the
/// sanitized name and `.npy`.
pub open spec fn state_file_name_spec(index: nat, name: Seq<char>) -> Seq<char> {
    zero_pad4(decimal(index)) + "_"@ + sanitize_spec(name) + ".npy"@
}

/// The manifest: one `name<TAB>file` line per parameter, in order.
pub open spec fn state_manifest_spec(names: Seq<Seq<char>>) -> Seq<char>
    decreases names.len(),
{
    if names.len() == 0 {
        Seq::empty()
    } else {
        let k = names.len() - 1;
        state_manifest_spec(names.drop_last()) + names[k] + "\t"@ + state_file_name_spec(k as nat, names[k])
            + "\n"@
    }
}

/// A parameter name as a file-name fragment: every character other than an
/// ASCII letter or digit, `_` or `-` becomes `_`.
pub fn sanitize_state_name(name: &str) -> (s: String)
    ensures
        s@ == sanitize_spec(name@),
{
    let chars = chars_of(name);
    let mut s = String::from_str("");
    proof {
        reveal_strlit("");
        assert(s@ =~= sanitize_spec(name@).take(0));
    }
    let mut i: usize = 0;
    while i < chars.len()
        invariant
            i <= chars@.len(),
            chars@ == name@,
            s@ == sanitize_spec(name@).take(i as int),
        decreases chars@.len() - i,
    {
        let c = chars[i];
        let keep = ('0' <= c && c <= '9') || ('A' <= c && c <= 'Z') || ('a' <= c && c <= 'z') || c == '_'
            || c == '-';
        assert(name@.subrange(i as int, i + 1) =~= seq![c]);
        if keep {
            s.append(name.substring_char(i, i + 1));
        } else {
            s.append("_");
        }
        proof {
            reveal_strlit("_");
            assert(sanitize_spec(name@).take(i + 1) =~= sanitize_spec(name@).take(i as int).push(
                sanitize_spec(name@)[i as int],
            ));
        }
        i = i + 1;
    }
    assert(sanitize_spec(name@).take(chars@.len() as int) =~= sanitize_spec(name@));
    s
}

/// The file that holds parameter `index` called `name`.
pub fn state_file_name(index: usize, name: &str) -> (s: String)
    ensures
        s@ == state_file_name_spec(index as nat, name@),
{
    let digits = decimal_u64(index as u64);
    let n = chars_of(digits.as_str()).len();
    let mut s = String::from_str("");
    proof {
        reveal_strlit("");
        assert(s@ =~= Seq::new((n - n) as nat, |i: int| '0'));
    }
    let mut k: usize = n;
    while k < 4
        invariant
            n <= k <= 4 || (n > 4 && k == n),
            n == decimal(index as nat).len(),
            s@ == Seq::new((k - n) as nat, |i: int| '0'),
        decreases 4 - k,
    {
        s.append("0");
        proof {
            reveal_strlit("0");
            assert(s@ =~= Seq::new((k + 1 - n) as nat, |i: int| '0'));
        }
        k = k + 1;
    }
    s.append(digits.as_str());
    assert(s@ =~= zero_pad4(decimal(index as nat)));
    s.append("_");
    s.append(sanitize_state_name(name).as_str());
    s.append(".npy");
    s
}

/// File names and manifest of a state dict whose parameters are `names`,
/// in order.
pub struct StateDictLayout {
    pub file_names: Vec<String>,
    pub manifest: String,
}

pub fn state_dict_layout(names: &[String]) -> (layout: StateDictLayout)
    ensures
        layout.file_names@.len() == names@.len(),
        forall|i: int|
            0 <= i < names@.len() ==> (#[trigger] layout.file_names@[i])@ == state_file_name_spec(
                i as nat,
                names@[i]@,
            ),
        layout.manifest@ == state_manifest_spec(string_views(names@)),
{
    let mut file_names: Vec<String> = Vec::new();
    let mut manifest = String::from_str("");
    proof {
        reveal_strlit("");
        assert(string_views(names@.take(0)) =~= Seq::<Seq<char>>::empty());
    }
    let mut i: usize = 0;
    while i < names.len()
        invariant
            i <= names@.len(),
            file_names@.len() == i,
            forall|j: int|
                0 <= j < i ==> (#[trigger] file_names@[j])@ == state_file_name_spec(j as nat, names@[j]@),
            manifest@ == state_manifest_spec(string_views(names@.take(i as int))),
        decreases names@.len() - i,
    {
        let file = state_file_name(i, names[i].as_str());
        manifest.append(names[i].as_str());
        manifest.append("\t");
        manifest.append(file.as_str());
        manifest.append("\n");
        proof {
            let prefix = string_views(names@.take(i + 1));
            assert(prefix.drop_last() =~= string_views(names@.take(i as int)));
            assert(prefix[i as int] == names@[i as int]@);
        }
        file_names.push(file);
        i = i + 1;
    }
    assert(names@.take(names@.len() as int) =~= names@);
    StateDictLayout { file_names, manifest }
}

// ---------------------------------------------------------------------------
// Reading the manifest back
// ---------------------------------------------------------------------------

/// How many characters of `s` come before the first `c` (all of them when
/// there is none).
pub open spec fn run_before(s: Seq<char>, c: char) -> nat
    decreases s.len(),
{
    if s.len() == 0 || s[0] == c {
        0
    } else {
        1 + run_before(s.drop_first(), c)
    }
}

pub(crate) proof fn lemma_run_before(s: Seq<char>, c: char, n: int)
    requires
        0 <= n <= s.len(),
        forall|j: int| 0 <= j < n ==> s[j] != c,
        n == s.len() || s[n] == c,
    ensures
        run_before(s, c) == n,
    decreases n,
{
    if n > 0 {
        lemma_run_before(s.drop_first(), c, n - 1);
    }
}

/// `line` without one trailing carriage return.
pub open spec fn strip_cr(line: Seq<char>) -> Seq<char> {
    if line.len() > 0 && line.last() == '\r' {
        line.drop_last()
    } else {
        line
    }
}

/// The lines of `text` as `str::lines` gives them: split after each line
/// feed, a carriage return before the line feed dropped, and no empty line
/// after a final line feed.
pub open spec fn lines_spec(text: Seq<char>) -> Seq<Seq<char>>
    decreases text.len(),
{
    if text.len() == 0 {
        Seq::empty()
    } else {
        let n = run_before(text, '\n');
        if n >= text.len() {
            seq![text]
        } else {
            seq![strip_cr(text.take(n as int))] + lines_spec(text.skip(n + 1int))
        }
    }
}

/// A line split at its first tab.
pub open spec fn split_tab(line: Seq<char>) -> Option<(Seq<char>, Seq<char>)> {
    let n = run_before(line, '\t');
    if n < line.len() {
        Some((line.take(n as int), line.skip(n + 1int)))
    } else {
        None
    }
}

/// The `(name, file)` entries of the lines, skipping blank lines; `None`
/// when a line that is not blank holds no tab.
pub open spec fn entries_spec(lines: Seq<Seq<char>>) -> Option<Seq<(Seq<char>, Seq<char>)>>
    decreases lines.len(),
{
    if lines.len() == 0 {
        Some(Seq::empty())
    } else {
        let rest = entries_spec(lines.drop_first());
        let line = lines[0];
        if all_white_space(line) {
            rest
        } else {
            match split_tab(line) {
                None => None,
                Some(entry) => match rest {
                    None => None,
                    Some(r) => Some(seq![entry] + r),
                },
            }
        }
    }
}

/// A manifest line that is blank or holds a tab.
pub open spec fn line_ok(line: Seq<char>) -> bool {
    all_white_space(line) || split_tab(line) is Some
}

/// The index of the first line that is neither blank nor holds a tab (the
/// number of lines when there is none).
pub open spec fn first_bad_line(lines: Seq<Seq<char>>) -> nat
    decreases lines.len(),
{
    if lines.len() == 0 || !line_ok(lines[0]) {
        0
    } else {
        1 + first_bad_line(lines.drop_first())
    }
}

proof fn lemma_first_bad_line_after(done: Seq<Seq<char>>, rest: Seq<Seq<char>>)
    requires
        forall|j: int| 0 <= j < done.len() ==> line_ok(#[trigger] done[j]),
    ensures
        first_bad_line(done + rest) == done.len() + first_bad_line(rest),
    decreases done.len(),
{
    if done.len() == 0 {
        assert(done + rest =~= rest);
    } else {
        assert((done + rest)[0] == done[0]);
        assert((done + rest).drop_first() =~= done.drop_first() + rest);
        assert forall|j: int| 0 <= j < done.drop_first().len() implies line_ok(#[trigger] done.drop_first()[j]) by {
            assert(done.drop_first()[j] == done[j + 1]);
        }
        lemma_first_bad_line_after(done.drop_first(), rest);
    }
}

pub open spec fn manifest_entries_spec(text: Seq<char>) -> Option<Seq<(Seq<char>, Seq<char>)>> {
    entries_spec(lines_spec(text))
}

pub open spec fn entry_views(entries: Seq<(String, String)>) -> Seq<(Seq<char>, Seq<char>)> {
    entries.map_values(|e: (String, String)| (e.0@, e.1@))
}

pub open spec fn prepend_entries(
    done: Seq<(Seq<char>, Seq<char>)>,
    rest: Option<Seq<(Seq<char>, Seq<char>)>>,
) -> Option<Seq<(Seq<char>, Seq<char>)>> {
    match rest {
        Some(r) => Some(done + r),
        None => None,
    }
}

/// The `(name, file)` entries of a `state.tsv` manifest, in order. Blank
/// lines are skipped; a line with no tab is an I/O error.
#[verifier::spinoff_prover]
#[verifier::rlimit(40)]
pub fn parse_state_manifest(text: &str) -> (res: Result<Vec<(String, String)>>)
    ensures
        res is Ok <==> manifest_entries_spec(text@) is Some,
        res matches Ok(entries) ==> entry_views(entries@) == manifest_entries_spec(text@)->0,
        res matches Err(e) ==> e is Io && e.message_spec() == "invalid state manifest line "@ + decimal(
            first_bad_line(lines_spec(text@)) + 1,
        ) + ": expected name<TAB>filename"@,
{
    let chars = chars_of(text);
    let len = chars.len();
    let mut out: Vec<(String, String)> = Vec::new();
    let mut pos: usize = 0;
    let mut line_no: usize = 0;
    let ghost mut done: Seq<Seq<char>> = Seq::empty();
    assert(text@.skip(0) =~= text@);
    assert(lines_spec(text@) =~= done + lines_spec(text@.skip(0)));
    while pos < len
        invariant
            pos <= len,
            len == chars@.len(),
            chars@ == text@,
            manifest_entries_spec(text@) == prepend_entries(entry_views(out@), entries_spec(lines_spec(text@.skip(pos as int)))),
            lines_spec(text@) == done + lines_spec(text@.skip(pos as int)),
            done.len() == line_no,
            line_no <= pos,
            forall|j: int| 0 <= j < done.len() ==> line_ok(#[trigger] done[j]),
        decreases len - pos,
    {
        let ghost t = text@.skip(pos as int);
        let mut end = pos;
        while end < len && chars[end] != '\n'
            invariant
                pos <= end <= len,
                len == chars@.len(),
                forall|j: int| pos <= j < end ==> chars@[j] != '\n',
            decreases len - end,
        {
            end = end + 1;
        }
        proof {
            lemma_run_before(t, '\n', end - pos);
        }
        let line_end = if end < len && end > pos && chars[end - 1] == '\r' {
            end - 1
        } else {
            end
        };
        let next = if end < len {
            end + 1
        } else {
            len
        };
        let ghost line = text@.subrange(pos as int, line_end as int);
        proof {
            if end < len {
                assert(t.take(end - pos) =~= text@.subrange(pos as int, end as int));
                assert(strip_cr(t.take(end - pos)) =~= line);
                assert(t.skip(end - pos + 1) =~= text@.skip(next as int));
                assert(lines_spec(t) == seq![line] + lines_spec(text@.skip(next as int)));
            } else {
                assert(t =~= line);
                assert(text@.skip(next as int) =~= Seq::<char>::empty());
                assert(lines_spec(text@.skip(next as int)) =~= Seq::<Seq<char>>::empty());
                assert(lines_spec(t) =~= seq![line] + lines_spec(text@.skip(next as int)));
            }
            assert((seq![line] + lines_spec(text@.skip(next as int))).drop_first() =~= lines_spec(
                text@.skip(next as int),
            ));
        }
        let mut blank = true;
        let mut k = pos;
        while k < line_end
            invariant
                pos <= k <= line_end <= len,
                len == chars@.len(),
                chars@ == text@,
                blank == forall|j: int| pos <= j < k ==> is_white_space(#[trigger] chars@[j]),
            decreases line_end - k,
        {
            if !char_is_whitespace(chars[k]) {
                blank = false;
            }
            k = k + 1;
        }
        assert(blank == all_white_space(line)) by {
            if blank {
                assert forall|j: int| 0 <= j < line.len() implies is_white_space(#[trigger] line[j]) by {
                    assert(line[j] == chars@[pos + j]);
                }
            } else {
                let j = choose|j: int| pos <= j < line_end && !is_white_space(#[trigger] chars@[j]);
                assert(line[j - pos] == chars@[j]);
            }
        }
        if !blank {
            let mut tab = pos;
            while tab < line_end && chars[tab] != '\t'
                invariant
                    pos <= tab <= line_end <= len,
                    len == chars@.len(),
                    forall|j: int| pos <= j < tab ==> chars@[j] != '\t',
                decreases line_end - tab,
            {
                tab = tab + 1;
            }
            proof {
                lemma_run_before(line, '\t', tab - pos);
            }
            if tab == line_end {
                proof {
                    assert(!line_ok(line));
                    lemma_first_bad_line_after(done, lines_spec(text@.skip(pos as int)));
                    assert(lines_spec(text@.skip(pos as int))[0] == line);
                }
                let mut message = String::new();
                push_number(&mut message, "invalid state manifest line ", (line_no + 1) as u64);
                message.append(": expected name<TAB>filename");
                return Err(TensorError::Io(message));
            }
            let name = String::from_str(text.substring_char(pos, tab));
            let file = String::from_str(text.substring_char(tab + 1, line_end));
            proof {
                assert(line.take(tab - pos) =~= name@);
                assert(line.skip(tab - pos + 1) =~= file@);
            }
            let ghost before = entry_views(out@);
            out.push((name, file));
            assert(entry_views(out@) =~= before + seq![(name@, file@)]);
        }
        proof {
            assert(line_ok(line));
            assert(lines_spec(text@.skip(pos as int)) =~= seq![line] + lines_spec(text@.skip(next as int)));
            assert(lines_spec(text@) =~= done.push(line) + lines_spec(text@.skip(next as int)));
            done = done.push(line);
        }
        line_no = line_no + 1;
        pos = next;
    }
    assert(text@.skip(pos as int) =~= Seq::<char>::empty());
    assert(lines_spec(text@.skip(pos as int)) =~= Seq::<Seq<char>>::empty());
    Ok(out)
}

// ---------------------------------------------------------------------------
// Matching the manifest against the model
// ---------------------------------------------------------------------------

/// The file of the last entry called `name`, if any (later entries replace
/// earlier ones).
pub open spec fn last_file_for(entries: Seq<(Seq<char>, Seq<char>)>, name: Seq<char>) -> Option<Seq<char>>
    decreases entries.len(),
{
    if entries.len() == 0 {
        None
    } else if entries.last().0 == name {
        Some(entries.last().1)
    } else {
        last_file_for(entries.drop_last(), name)
    }
}

/// Every parameter has an entry and every entry names a parameter.
pub open spec fn manifest_matches(names: Seq<Seq<char>>, entries: Seq<(Seq<char>, Seq<char>)>) -> bool {
    &&& forall|i: int| 0 <= i < names.len() ==> (#[trigger] last_file_for(entries, names[i])) is Some
    &&& forall|k: int| 0 <= k < entries.len() ==> names.contains(#[trigger] entries[k].0)
}

fn last_file_of(entries: &[(String, String)], name: &str) -> (res: Option<String>)
    ensures
        res is Some <==> last_file_for(entry_views(entries@), name@) is Some,
        res matches Some(f) ==> f@ == last_file_for(entry_views(entries@), name@)->0,
{
    let ghost views = entry_views(entries@);
    let mut k: usize = entries.len();
    assert(views.take(k as int) =~= views);
    while k > 0
        invariant
            k <= entries@.len(),
            views == entry_views(entries@),
            last_file_for(views, name@) == last_file_for(views.take(k as int), name@),
        decreases k,
    {
        let prefix = Ghost(views.take(k as int));
        assert(prefix@.last() == views[k - 1]);
        assert(prefix@.drop_last() =~= views.take(k - 1));
        if str_eq(entries[k - 1].0.as_str(), name) {
            return Some(entries[k - 1].1.clone());
        }
        k = k - 1;
    }
    None
}

/// Parameter `i` is the first that the manifest gives no file.
pub open spec fn first_missing(names: Seq<Seq<char>>, entries: Seq<(Seq<char>, Seq<char>)>, i: int) -> bool {
    &&& 0 <= i < names.len()
    &&& last_file_for(entries, names[i]) is None
    &&& forall|j: int| 0 <= j < i ==> (#[trigger] last_file_for(entries, names[j])) is Some
}

/// For each parameter of `names`, in order, the file that the manifest
/// `entries` gives it (the last entry with its name). An invalid operation
/// when a parameter has no entry or an entry names no parameter.
pub fn state_files_for(names: &[String], entries: &[(String, String)]) -> (res: Result<Vec<String>>)
    ensures
        res is Ok <==> manifest_matches(string_views(names@), entry_views(entries@)),
        res matches Ok(files) ==> files@.len() == names@.len() && forall|i: int|
            0 <= i < names@.len() ==> (#[trigger] files@[i])@ == last_file_for(entry_views(entries@), names@[i]@)->0,
        res matches Err(e) ==> e is InvalidOperation,
        res matches Err(e) ==> (exists|i: int|
            #[trigger] first_missing(string_views(names@), entry_views(entries@), i) && e.message_spec()
                == "missing state_dict parameter "@ + debug_quoted(names@[i]@)) || ((forall|i: int|
            0 <= i < names@.len() ==> (#[trigger] last_file_for(entry_views(entries@), names@[i]@)) is Some)
            && exists|k: int|
            0 <= k < entries@.len() && !string_views(names@).contains(#[trigger] entries@[k].0@)
                && e.message_spec() == "state_dict contains unexpected parameter "@ + debug_quoted(
                entries@[k].0@,
            )),
{
    let ghost views = entry_views(entries@);
    let ghost name_views = string_views(names@);
    let mut files: Vec<String> = Vec::new();
    let mut i: usize = 0;
    while i < names.len()
        invariant
            i <= names@.len(),
            views == entry_views(entries@),
            name_views == string_views(names@),
            files@.len() == i,
            forall|j: int| 0 <= j < i ==> (#[trigger] last_file_for(views, name_views[j])) is Some,
            forall|j: int| 0 <= j < i ==> (#[trigger] files@[j])@ == last_file_for(views, names@[j]@)->0,
        decreases names@.len() - i,
    {
        assert(name_views[i as int] == names@[i as int]@);
        match last_file_of(entries, names[i].as_str()) {
            Some(f) => {
                files.push(f);
            },
            None => {
                let mut message = String::from_str("missing state_dict parameter ");
                push_debug_quoted(&mut message, names[i].as_str());
                assert(first_missing(name_views, views, i as int));
                return Err(TensorError::InvalidOperation(message));
            },
        }
        i = i + 1;
    }
    let mut k: usize = 0;
    while k < entries.len()
        invariant
            k <= entries@.len(),
            views == entry_views(entries@),
            name_views == string_views(names@),
            forall|j: int| 0 <= j < names@.len() ==> (#[trigger] last_file_for(views, name_views[j])) is Some,
            forall|j: int| 0 <= j < k ==> name_views.contains(#[trigger] views[j].0),
        decreases entries@.len() - k,
    {
        let mut found = false;
        let mut j: usize = 0;
        while j < names.len() && !found
            invariant
                j <= names@.len(),
                k < entries@.len(),
                views == entry_views(entries@),
                name_views == string_views(names@),
                found ==> name_views.contains(views[k as int].0),
                !found ==> forall|a: int| 0 <= a < j ==> name_views[a] != views[k as int].0,
            decreases names@.len() - j,
        {
            if str_eq(names[j].as_str(), entries[k].0.as_str()) {
                assert(name_views[j as int] == views[k as int].0);
                found = true;
            }
            j = j + 1;
        }
        if !found {
            proof {
                if name_views.contains(views[k as int].0) {
                    let a = choose|a: int| 0 <= a < name_views.len() && name_views[a] == views[k as int].0;
                }
                assert(views[k as int].0 == entries@[k as int].0@);
                assert forall|i: int| 0 <= i < names@.len() implies (#[trigger] last_file_for(
                    entry_views(entries@),
                    names@[i]@,
                )) is Some by {
                    assert(name_views[i] == names@[i]@);
                }
            }
            let mut message = String::from_str("state_dict contains unexpected parameter ");
            push_debug_quoted(&mut message, entries[k].0.as_str());
            return Err(TensorError::InvalidOperation(message));
        }
        k = k + 1;
    }
    Ok(files)
}

// ---------------------------------------------------------------------------
// A saved manifest reads back as written
// ---------------------------------------------------------------------------

/// `s` holds neither a tab nor a line feed.
pub open spec fn no_tab_or_newline(s: Seq<char>) -> bool {
    forall|k: int| 0 <= k < s.len() ==> #[trigger] s[k] != '\t' && s[k] != '\n'
}

pub open spec fn manifest_line(names: Seq<Seq<char>>, j: int) -> Seq<char> {
    names[j] + "\t"@ + state_file_name_spec(j as nat, names[j])
}

/// The manifest lines of parameters `j..`, each with its line feed.
pub open spec fn lines_from(names: Seq<Seq<char>>, j: int) -> Seq<char>
    decreases names.len() - j,
{
    if 0 <= j < names.len() {
        manifest_line(names, j) + "\n"@ + lines_from(names, j + 1)
    } else {
        Seq::empty()
    }
}

proof fn lemma_manifest_prefix(names: Seq<Seq<char>>, k: int)
    requires
        0 <= k <= names.len(),
    ensures
        state_manifest_spec(names.take(k)) + lines_from(names, k) == lines_from(names, 0),
    decreases k,
{
    if k == 0 {
        assert(names.take(0) =~= Seq::<Seq<char>>::empty());
        assert(Seq::<char>::empty() + lines_from(names, 0) =~= lines_from(names, 0));
    } else {
        lemma_manifest_prefix(names, k - 1);
        let t = names.take(k);
        assert(t.drop_last() =~= names.take(k - 1));
        assert(t[k - 1] == names[k - 1]);
        let m = state_manifest_spec(names.take(k - 1));
        assert(state_manifest_spec(t) == m + names[k - 1] + "\t"@ + state_file_name_spec((k - 1) as nat, names[k - 1])
            + "\n"@);
        assert(state_manifest_spec(t) + lines_from(names, k) =~= m + lines_from(names, k - 1));
    }
}

proof fn lemma_file_name_chars(index: nat, name: Seq<char>)
    ensures
        no_tab_or_newline(state_file_name_spec(index, name)),
        state_file_name_spec(index, name).len() > 0,
        state_file_name_spec(index, name).last() == 'y',
{
    reveal_strlit("_");
    reveal_strlit(".npy");
    lemma_decimal_digits(index);
    let d = decimal(index);
    let a = zero_pad4(d);
    assert forall|k: int| 0 <= k < a.len() implies '0' <= #[trigger] a[k] <= '9' by {
        if d.len() < 4 {
            let pad = Seq::new((4 - d.len()) as nat, |i: int| '0');
            if k >= pad.len() {
                assert(a[k] == d[k - pad.len()]);
            }
        }
    }
    let c = sanitize_spec(name);
    assert forall|k: int| 0 <= k < c.len() implies #[trigger] c[k] != '\t' && c[k] != '\n' by {
        assert(c[k] == (if is_state_name_char(name[k]) { name[k] } else { '_' }));
    }
    let f = state_file_name_spec(index, name);
    let b = a + "_"@;
    let e = b + c;
    assert(f == e + ".npy"@);
    assert forall|k: int| 0 <= k < f.len() implies #[trigger] f[k] != '\t' && f[k] != '\n' by {
        if k < a.len() {
            assert(f[k] == a[k]);
        } else if k < b.len() {
            assert(f[k] == '_');
        } else if k < e.len() {
            assert(f[k] == c[k - b.len()]);
        } else {
            assert(f[k] == ".npy"@[k - e.len()]);
        }
    }
    assert(f.last() == ".npy"@[3]);
}

proof fn lemma_lines_from_entries(names: Seq<Seq<char>>, j: int)
    requires
        0 <= j <= names.len(),
        forall|i: int| 0 <= i < names.len() ==> #[trigger] no_tab_or_newline(names[i]),
    ensures
        entries_spec(lines_spec(lines_from(names, j))) == Some(
            Seq::new(
                (names.len() - j) as nat,
                |i: int| (names[j + i], state_file_name_spec((j + i) as nat, names[j + i])),
            ),
        ),
    decreases names.len() - j,
{
    reveal_strlit("\t");
    reveal_strlit("\n");
    if j == names.len() {
        assert(lines_from(names, j) =~= Seq::<char>::empty());
        assert(lines_spec(Seq::<char>::empty()) =~= Seq::<Seq<char>>::empty());
        assert(Seq::new(
            0,
            |i: int| (names[j + i], state_file_name_spec((j + i) as nat, names[j + i])),
        ) =~= Seq::<(Seq<char>, Seq<char>)>::empty());
    } else {
        lemma_lines_from_entries(names, j + 1);
        let name = names[j];
        let file = state_file_name_spec(j as nat, name);
        lemma_file_name_chars(j as nat, name);
        assert(no_tab_or_newline(name));
        let line = manifest_line(names, j);
        let rest = lines_from(names, j + 1);
        let text = line + "\n"@ + rest;
        assert(lines_from(names, j) == text);
        assert(line =~= name + "\t"@ + file);
        assert forall|k: int| 0 <= k < line.len() implies #[trigger] text[k] != '\n' by {
            assert(text[k] == line[k]);
            if k < name.len() {
                assert(line[k] == name[k]);
            } else if k > name.len() {
                assert(line[k] == file[k - name.len() - 1]);
            }
        }
        assert(text[line.len() as int] == '\n');
        lemma_run_before(text, '\n', line.len() as int);
        assert(text.take(line.len() as int) =~= line);
        assert(text.skip(line.len() + 1int) =~= rest);
        assert(line.last() == file.last());
        assert(strip_cr(line) == line);
        let lines = lines_spec(text);
        assert(lines == seq![line] + lines_spec(rest));
        assert(lines.drop_first() =~= lines_spec(rest));
        assert(lines[0] == line);
        assert(!is_white_space(line.last()));
        assert(!all_white_space(line));
        assert forall|k: int| 0 <= k < name.len() implies #[trigger] line[k] != '\t' by {
            assert(line[k] == name[k]);
        }
        lemma_run_before(line, '\t', name.len() as int);
        assert(line.take(name.len() as int) =~= name);
        assert(line.skip(name.len() + 1int) =~= file);
        assert(split_tab(line) == Some((name, file)));
        let tail = Seq::new(
            (names.len() - (j + 1)) as nat,
            |i: int| (names[j + 1 + i], state_file_name_spec((j + 1 + i) as nat, names[j + 1 + i])),
        );
        assert(seq![(name, file)] + tail =~= Seq::new(
            (names.len() - j) as nat,
            |i: int| (names[j + i], state_file_name_spec((j + i) as nat, names[j + i])),
        ));
    }
}

/// What `state_dict_layout` writes is what `parse_state_manifest` and
/// `state_files_for` read back: for parameter names free of tabs and line
/// feeds, the manifest holds exactly the names paired with their files, in
/// order, and when the names are distinct each parameter is matched with
/// its own file.
pub proof fn lemma_state_manifest_roundtrip(names: Seq<Seq<char>>)
    requires
        forall|i: int| 0 <= i < names.len() ==> #[trigger] no_tab_or_newline(names[i]),
    ensures
        manifest_entries_spec(state_manifest_spec(names)) == Some(
            Seq::new(names.len(), |i: int| (names[i], state_file_name_spec(i as nat, names[i]))),
        ),
        (forall|i: int, j: int| 0 <= i < j < names.len() ==> names[i] != names[j]) ==> {
            let entries = manifest_entries_spec(state_manifest_spec(names))->0;
            &&& manifest_matches(names, entries)
            &&& forall|i: int|
                0 <= i < names.len() ==> #[trigger] last_file_for(entries, names[i]) == Some(
                    state_file_name_spec(i as nat, names[i]),
                )
        },
{
    lemma_manifest_prefix(names, names.len() as int);
    assert(names.take(names.len() as int) =~= names);
    assert(lines_from(names, names.len() as int) =~= Seq::<char>::empty());
    assert(state_manifest_spec(names) + Seq::<char>::empty() =~= state_manifest_spec(names));
    lemma_lines_from_entries(names, 0);
    let entries = Seq::new(names.len(), |i: int| (names[i], state_file_name_spec(i as nat, names[i])));
    assert(Seq::new(
        (names.len() - 0) as nat,
        |i: int| (names[0 + i], state_file_name_spec((0 + i) as nat, names[0 + i])),
    ) =~= entries);
    if forall|i: int, j: int| 0 <= i < j < names.len() ==> names[i] != names[j] {
        assert forall|i: int| 0 <= i < names.len() implies #[trigger] last_file_for(entries, names[i]) == Some(
            state_file_name_spec(i as nat, names[i]),
        ) by {
            lemma_last_file_distinct(names, entries, names.len() as int, i);
            assert(entries.take(names.len() as int) =~= entries);
        }
        assert forall|k: int| 0 <= k < entries.len() implies names.contains(#[trigger] entries[k].0) by {
            assert(entries[k].0 == names[k]);
        }
    }
}

proof fn lemma_last_file_distinct(
    names: Seq<Seq<char>>,
    entries: Seq<(Seq<char>, Seq<char>)>,
    n: int,
    i: int,
)
    requires
        0 <= i < n <= names.len(),
        entries == Seq::new(names.len(), |k: int| (names[k], state_file_name_spec(k as nat, names[k]))),
        forall|a: int, b: int| 0 <= a < b < names.len() ==> names[a] != names[b],
    ensures
        last_file_for(entries.take(n), names[i]) == Some(state_file_name_spec(i as nat, names[i])),
    decreases n,
{
    let t = entries.take(n);
    assert(t.last() == entries[n - 1]);
    assert(t.drop_last() =~= entries.take(n - 1));
    if i < n - 1 {
        assert(names[n - 1] != names[i]);
        lemma_last_file_distinct(names, entries, n - 1, i);
    }
    if n == names.len() {
        assert(entries.take(n) =~= entries);
    }
}

} // verus!
