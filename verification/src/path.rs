//! The default output path of a conversion.

use vstd::prelude::*;

verus! {

/// Whether `c` separates path components on some platform, or starts a drive prefix.
pub open spec fn is_path_separator(c: char) -> bool {
    c == '/' || c == '\\' || c == ':'
}

/// A bare file name: not empty, not `.` or `..`, and free of separators.
pub open spec fn is_plain_file_name(s: Seq<char>) -> bool {
    &&& s.len() > 0
    &&& s != seq!['.']
    &&& s != seq!['.', '.']
    &&& forall|i: int| 0 <= i < s.len() ==> !is_path_separator(#[trigger] s[i])
}

/// The index of the last occurrence of `c` in `s`, or -1 when there is none.
pub open spec fn last_index(s: Seq<char>, c: char) -> int
    decreases s.len(),
{
    if s.len() == 0 {
        -1
    } else if s.last() == c {
        s.len() - 1
    } else {
        last_index(s.drop_last(), c)
    }
}

/// The part of a path up to and including its last `/` (empty when it has none).
pub open spec fn dir_part(path: Seq<char>) -> Seq<char> {
    path.take(last_index(path, '/') + 1)
}

/// The part of a path after its last `/` (the whole path when it has none).
pub open spec fn name_part(path: Seq<char>) -> Seq<char> {
    path.skip(last_index(path, '/') + 1)
}

/// The stem of a bare file name: the part before its last `.`; the whole name
/// when it has no `.` or its only `.` is the first character.
pub open spec fn file_stem(s: Seq<char>) -> Seq<char> {
    if last_index(s, '.') > 0 {
        s.take(last_index(s, '.'))
    } else {
        s
    }
}

/// The file name with its extension replaced by `extension` (added when it had
/// none; removed when `extension` is empty).
pub open spec fn with_extension_spec(name: Seq<char>, extension: Seq<char>) -> Seq<char> {
    if extension.len() == 0 {
        file_stem(name)
    } else {
        file_stem(name) + seq!['.'] + extension
    }
}

/// A path that Unix and Windows read alike and that ends in a bare file name:
/// no backslash or `:` anywhere (no Windows separator, drive or verbatim
/// prefix), not starting with `//` (no UNC or device prefix on Windows), and a
/// bare file name after its last `/`, which is then its last component on both.
pub open spec fn is_portable_file_path(path: Seq<char>) -> bool {
    &&& forall|i: int| 0 <= i < path.len() ==> #[trigger] path[i] != '\\' && path[i] != ':'
    &&& !(path.len() >= 2 && path[0] == '/' && path[1] == '/')
    &&& is_plain_file_name(name_part(path))
}

/// A path whose last component names a file on Unix and on Windows alike: it
/// is not empty; it does not end in `/`, a backslash, `:` or `.` (so its last
/// component is neither a root, a drive, a trailing separator, `.` nor `..`);
/// and it does not start with two separators (no UNC, device or verbatim
/// prefix on Windows).
pub open spec fn names_a_file(path: Seq<char>) -> bool {
    &&& path.len() > 0
    &&& !is_path_separator(path.last())
    &&& path.last() != '.'
    &&& !(path.len() >= 2 && (path[0] == '/' || path[0] == '\\') && (path[1] == '/' || path[1]
        == '\\'))
}

/// Whether `s` ends with `tail`.
pub open spec fn ends_with(s: Seq<char>, tail: Seq<char>) -> bool {
    s.len() >= tail.len() && s.skip(s.len() - tail.len()) == tail
}

/// The extension of a bare file name: what follows its last `.`, when that `.`
/// is not its first character.
pub open spec fn file_extension(name: Seq<char>) -> Option<Seq<char>> {
    if last_index(name, '.') > 0 {
        Some(name.skip(last_index(name, '.') + 1))
    } else {
        None
    }
}

/// The default output path of a path ending in a bare file name: the
/// directories in front kept, the file name replaced by its stem and `.pdf`.
pub open spec fn pdf_path_spec(path: Seq<char>) -> Seq<char> {
    dir_part(path) + file_stem(name_part(path)) + ".pdf"@
}

/// Calls `std::path::Path::with_extension`. Claims: for a path that Unix and
/// Windows read alike and that ends in a bare file name (`is_portable_file_path`),
/// the result keeps everything up to the last `/` and replaces the file name by
/// its stem followed by `.` and the extension, as the documentation of
/// `Path::file_stem`, `PathBuf::set_extension` and `Path::with_extension`
/// describes. For any path whose last component names a file on Unix and on
/// Windows alike (`names_a_file`), and a non-empty extension, it claims what
/// holds on both: the extension is added or replaced (`PathBuf::set_extension`),
/// so the result ends in `.` followed by the extension, the file name being the
/// path's last component. Nothing more is claimed of other paths: what std
/// gives for them depends on the platform's path rules (backslashes, drive
/// letters, UNC and verbatim prefixes), so no result is named for them either. An extension holding a path
/// separator makes `with_extension` panic, so it is not admitted.
#[verifier::external_body]
fn path_with_extension(path: &str, extension: &str) -> (r: String)
    requires
        forall|i: int|
            0 <= i < extension@.len() ==> #[trigger] extension@[i] != '/' && extension@[i] != '\\',
    ensures
        is_portable_file_path(path@) ==> r@ == dir_part(path@) + with_extension_spec(
            name_part(path@),
            extension@,
        ),
        names_a_file(path@) && extension@.len() > 0 ==> ends_with(r@, seq!['.'] + extension@),
{
    std::path::Path::new(path).with_extension(extension).to_string_lossy().into_owned()
}

/// The default PDF output path: the input path with its final extension
/// replaced by `pdf`. For example, `notes.tar.md` gives `notes.tar.pdf`; a path
/// with no extension gets one: `notes` gives `notes.pdf`; the directories in
/// front of the file name are kept. The result is stated for paths that Unix and
/// Windows read alike (`is_portable_file_path`); for other paths it is what the
/// platform's `Path::with_extension` gives, and whenever the path's last
/// component names a file on both platforms (`names_a_file`, as `docs\notes.md`
/// does) it ends in `.pdf`.
pub fn default_pdf_output_path(input: &str) -> (r: String)
    ensures
        is_portable_file_path(input@) ==> r@ == pdf_path_spec(input@),
        names_a_file(input@) ==> ends_with(r@, ".pdf"@),
{
    proof {
        reveal_strlit("pdf");
        reveal_strlit(".pdf");
        let d = dir_part(input@);
        let stem = file_stem(name_part(input@));
        assert(seq!['.'] + "pdf"@ =~= ".pdf"@);
        assert(d + (stem + seq!['.'] + "pdf"@) =~= d + stem + ".pdf"@);
    }
    path_with_extension(input, "pdf")
}

/// Where the last `c` of `s` stands, and that no `c` follows it.
pub proof fn lemma_last_index(s: Seq<char>, c: char)
    ensures
        -1 <= last_index(s, c) < s.len(),
        last_index(s, c) >= 0 ==> s[last_index(s, c)] == c,
        forall|j: int| last_index(s, c) < j < s.len() ==> #[trigger] s[j] != c,
    decreases s.len(),
{
    if s.len() > 0 && s.last() != c {
        lemma_last_index(s.drop_last(), c);
        assert forall|j: int| last_index(s, c) < j < s.len() implies #[trigger] s[j] != c by {
            if j < s.len() - 1 {
                assert(s.drop_last()[j] == s[j]);
            }
        }
        if last_index(s, c) >= 0 {
            assert(s.drop_last()[last_index(s, c)] == s[last_index(s, c)]);
        }
    }
}

/// The last `c` of `s` is the one at `k` when no `c` follows it (`k` is -1 when
/// `s` holds no `c`).
pub proof fn lemma_last_index_is(s: Seq<char>, c: char, k: int)
    requires
        -1 <= k < s.len(),
        k >= 0 ==> s[k] == c,
        forall|j: int| k < j < s.len() ==> #[trigger] s[j] != c,
    ensures
        last_index(s, c) == k,
    decreases s.len(),
{
    if s.len() > 0 && k < s.len() - 1 {
        assert(s[s.len() - 1] != c);
        assert forall|j: int| k < j < s.drop_last().len() implies #[trigger] s.drop_last()[j] != c by {
            assert(s.drop_last()[j] == s[j]);
        }
        if k >= 0 {
            assert(s.drop_last()[k] == s[k]);
        }
        lemma_last_index_is(s.drop_last(), c, k);
    }
}

/// Law: for a path that Unix and Windows read alike and that ends in a bare file
/// name, the default output path keeps the directories in front and the file
/// stem, has the extension `pdf`, is again such a path, and is its own default
/// output path.
pub proof fn law_default_pdf_path(path: Seq<char>)
    requires
        is_portable_file_path(path),
    ensures
        is_portable_file_path(pdf_path_spec(path)),
        dir_part(pdf_path_spec(path)) == dir_part(path),
        file_stem(name_part(pdf_path_spec(path))) == file_stem(name_part(path)),
        file_extension(name_part(pdf_path_spec(path))) == Some("pdf"@),
        pdf_path_spec(pdf_path_spec(path)) == pdf_path_spec(path),
{
    reveal_strlit(".pdf");
    reveal_strlit("pdf");
    let ext = ".pdf"@;
    assert(ext.len() == 4 && ext[0] == '.' && ext[1] == 'p' && ext[2] == 'd' && ext[3] == 'f');
    let li = last_index(path, '/');
    lemma_last_index(path, '/');
    let d = dir_part(path);
    let n = name_part(path);
    let ld = last_index(n, '.');
    lemma_last_index(n, '.');
    let stem = file_stem(n);
    assert(stem.len() > 0);
    assert(forall|i: int| 0 <= i < stem.len() ==> #[trigger] stem[i] == n[i]);
    let name2 = stem + ext;
    let r = d + name2;
    assert(pdf_path_spec(path) =~= r);
    assert(d.len() == li + 1);
    // the last `/` of the result is the last `/` of the input
    assert forall|j: int| li < j < r.len() implies #[trigger] r[j] != '/' by {
        let t = j - d.len();
        if t < stem.len() {
            assert(r[j] == stem[t]);
            assert(n[t] == path[li + 1 + t]);
        } else {
            assert(r[j] == ext[t - stem.len()]);
        }
    }
    if li >= 0 {
        assert(r[li] == path[li]);
    }
    lemma_last_index_is(r, '/', li);
    assert(dir_part(r) =~= d);
    assert(name_part(r) =~= name2);
    // the new file name is bare
    assert forall|i: int| 0 <= i < name2.len() implies !is_path_separator(#[trigger] name2[i]) by {
        if i < stem.len() {
            assert(name2[i] == stem[i]);
        } else {
            assert(name2[i] == ext[i - stem.len()]);
        }
    }
    assert(name2.len() > 2);
    assert(name2 != seq!['.']);
    assert(name2 != seq!['.', '.']);
    // its last `.` is the one in front of `pdf`
    assert forall|j: int| stem.len() < j < name2.len() implies #[trigger] name2[j] != '.' by {
        assert(name2[j] == ext[j - stem.len()]);
    }
    assert(name2[stem.len() as int] == '.');
    lemma_last_index_is(name2, '.', stem.len() as int);
    assert(file_stem(name2) =~= stem);
    assert(name2.skip(stem.len() as int + 1) =~= "pdf"@);
    // no backslash or `:` arrives, and no `//` in front
    assert forall|i: int| 0 <= i < r.len() implies #[trigger] r[i] != '\\' && r[i] != ':' by {
        if i < d.len() {
            assert(r[i] == path[i]);
        } else {
            assert(r[i] == name2[i - d.len()]);
            assert(!is_path_separator(name2[i - d.len()]));
        }
    }
    if r.len() >= 2 && r[0] == '/' && r[1] == '/' {
        assert(d.len() >= 2) by {
            if d.len() < 2 {
                assert(r[d.len() as int] == stem[0]);
                assert(stem[0] == n[0]);
                assert(!is_path_separator(n[0]));
            }
        }
        assert(r[0] == path[0] && r[1] == path[1]);
    }
    assert(pdf_path_spec(r) =~= r);
}

/// Law: the two things stated of the default output path agree: a path that
/// Unix and Windows read alike names a file on both unless it ends in `.`, and
/// its default output path, spelled out, ends in `.pdf`.
pub proof fn law_pdf_path_ends_in_pdf(path: Seq<char>)
    requires
        is_portable_file_path(path),
    ensures
        path.last() != '.' ==> names_a_file(path),
        ends_with(pdf_path_spec(path), ".pdf"@),
{
    reveal_strlit(".pdf");
    let d = dir_part(path);
    let n = name_part(path);
    lemma_last_index(path, '/');
    assert(path =~= d + n);
    assert(path.last() == n.last());
    let r = pdf_path_spec(path);
    assert(r.skip(r.len() - 4) =~= ".pdf"@);
}

} // verus!
