//! The module resolver's decisions: mapping import aliases to candidate
//! filesystem locations.  The caller performs the existence checks and
//! directory listings; everything here is a pure judgement on names.

use vstd::prelude::*;

use crate::chars::{
    chars_to_string, find_char, match_at, spec_find_char, spec_match_at, sub_chars, to_chars,
    back_space_run_start, back_word_run_start, spec_back_space_run_start, spec_back_word_run_start,
    str_concat, space_run_end, spec_space_run_end, word_run_end, spec_word_run_end,
};
use crate::models::{opt_view, seq_view};
use crate::opbuild::{spec_last_slash_seg, last_slash_seg_pub};

verus! {

/// One import binding: the alias a file uses, the dotted import path it
/// names, and the filesystem location the caller resolved it to, when it
/// resolved at all.
#[derive(Debug, Clone)]
pub struct ImportInfo {
    pub alias: String,
    pub path: String,
    pub file_path: Option<String>,
}

pub ghost struct ImportInfoView {
    pub alias: Seq<char>,
    pub path: Seq<char>,
    pub file_path: Option<Seq<char>>,
}

impl View for ImportInfo {
    type V = ImportInfoView;

    open spec fn view(&self) -> ImportInfoView {
        ImportInfoView {
            alias: self.alias@,
            path: self.path@,
            file_path: opt_view(self.file_path),
        }
    }
}

/// The import written on one line: a quoted path, optionally preceded by
/// an alias word; an import without an alias is called by the last
/// segment of its path.
pub open spec fn spec_import_line(s: Seq<char>) -> Option<(Seq<char>, Seq<char>)> {
    match spec_find_char(s, '"', 0) {
        Some(q1) => match spec_find_char(s, '"', q1 + 1) {
            Some(q2) => {
                let path = s.subrange(q1 + 1, q2);
                let ws = spec_back_space_run_start(s, q1);
                let aw = spec_back_word_run_start(s, ws);
                let alias = if aw < ws {
                    s.subrange(aw, ws)
                } else {
                    spec_last_slash_seg(path)
                };
                Some((alias, path))
            },
            None => None,
        },
        None => None,
    }
}

/// Reads one import line, per `spec_import_line`.
pub fn parse_import_line(v: &Vec<char>) -> (r: Option<(String, String)>)
    ensures
        match r {
            Some(p) => spec_import_line(v@) == Some((p.0@, p.1@)),
            None => spec_import_line(v@) is None,
        },
{
    let q1 = match find_char(v, '"', 0) {
        Some(q) => q,
        None => {
            return None;
        },
    };
    let q2 = match find_char(v, '"', q1 + 1) {
        Some(q) => q,
        None => {
            return None;
        },
    };
    proof {
        crate::chars::lemma_find_char_ge_pub(v@, '"', q1 + 1 as int);
    }
    let path = sub_chars(v, q1 + 1, q2);
    let ws = back_space_run_start(v, q1);
    let aw = back_word_run_start(v, ws);
    let alias: Vec<char> = if aw < ws {
        sub_chars(v, aw, ws)
    } else {
        last_slash_seg_pub(&path)
    };
    Some((chars_to_string(&alias), chars_to_string(&path)))
}

/// The module's own name, read from the manifest text: the word run
/// after the first `module` keyword followed by whitespace.
pub open spec fn spec_module_name_at(s: Seq<char>, i: int) -> Option<Seq<char>> {
    if !spec_match_at(s, "module"@, i) {
        None
    } else {
        let j = spec_space_run_end(s, i + 6);
        if !(j > i + 6) {
            None
        } else {
            let k = spec_nonspace_end(s, j);
            if k > j {
                Some(s.subrange(j, k))
            } else {
                None
            }
        }
    }
}

pub open spec fn spec_nonspace_end(s: Seq<char>, i: int) -> int {
    crate::chars::spec_nonspace_run_end(s, i)
}

pub open spec fn spec_module_name_from(s: Seq<char>, i: int) -> Option<Seq<char>>
    decreases s.len() - i when 0 <= i
{
    if i >= s.len() {
        None
    } else if spec_module_name_at(s, i) is Some {
        spec_module_name_at(s, i)
    } else {
        spec_module_name_from(s, i + 1)
    }
}

pub open spec fn spec_module_name(s: Seq<char>) -> Option<Seq<char>> {
    spec_module_name_from(s, 0)
}

/// Reads the module name of a manifest, per `spec_module_name`.
pub fn parse_module_name(content: &str) -> (r: Option<String>)
    ensures
        match r {
            Some(n) => spec_module_name(content@) == Some(n@),
            None => spec_module_name(content@) is None,
        },
{
    proof {
        reveal_strlit("module");
    }
    let v = to_chars(content);
    let mut i: usize = 0;
    while i < v.len()
        invariant
            i <= v@.len(),
            v@ == content@,
            spec_module_name_from(v@, 0) == spec_module_name_from(v@, i as int),
        decreases v@.len() - i,
    {
        if match_at(&v, "module", i) {
            proof {
                reveal_strlit("module");
                assert(i + 6 <= v.len());
            }
            let j = space_run_end(&v, i + 6);
            if j > i + 6 {
                let k = crate::chars::nonspace_run_end(&v, j);
                if k > j {
                    proof {
                        assert(spec_module_name_at(v@, i as int) == Some(
                            v@.subrange(j as int, k as int),
                        ));
                        assert(spec_module_name_from(v@, i as int) == spec_module_name_at(
                            v@,
                            i as int,
                        ));
                    }
                    return Some(chars_to_string(&sub_chars(&v, j, k)));
                }
            }
        }
        i += 1;
    }
    None
}

/// The module-relative candidate location of an import: when the import
/// path starts with the module name, the rest, without its leading
/// slashes, under the manifest's directory.
pub open spec fn spec_slash_run_end(s: Seq<char>, i: int) -> int
    decreases s.len() - i when 0 <= i <= s.len()
{
    if i == s.len() || s[i] != '/' {
        i
    } else {
        spec_slash_run_end(s, i + 1)
    }
}

pub open spec fn spec_module_relative(
    import_path: Seq<char>,
    module_name: Seq<char>,
    gomod_dir: Seq<char>,
) -> Option<Seq<char>> {
    if spec_match_at(import_path, module_name, 0) {
        let rest = import_path.skip(module_name.len() as int);
        let rel = rest.skip(spec_slash_run_end(rest, 0));
        Some(gomod_dir + "/"@ + rel)
    } else {
        None
    }
}

/// The module-relative candidate, per `spec_module_relative`.
pub fn module_relative_candidate(import_path: &str, module_name: &str, gomod_dir: &str) -> (r:
    Option<String>)
    ensures
        match r {
            Some(c) => spec_module_relative(import_path@, module_name@, gomod_dir@) == Some(c@),
            None => spec_module_relative(import_path@, module_name@, gomod_dir@) is None,
        },
{
    let pv = to_chars(import_path);
    let mv = to_chars(module_name);
    if !crate::chars::match_at(&pv, module_name, 0) {
        return None;
    }
    let rest = sub_chars(&pv, mv.len(), pv.len());
    proof {
        assert(pv@.subrange(mv@.len() as int, pv@.len() as int) =~= pv@.skip(mv@.len() as int));
    }
    let mut j: usize = 0;
    while j < rest.len() && rest[j] == '/'
        invariant
            j <= rest@.len(),
            spec_slash_run_end(rest@, 0) == spec_slash_run_end(rest@, j as int),
        decreases rest@.len() - j,
    {
        j += 1;
    }
    let rel = sub_chars(&rest, j, rest.len());
    proof {
        assert(rest@.subrange(j as int, rest@.len() as int) =~= rest@.skip(j as int));
    }
    Some(crate::chars::str_concat3(gomod_dir, "/", chars_to_string(&rel).as_str()))
}

/// Lexicographic order on character sequences, by character code.
pub open spec fn spec_lex_le(a: Seq<char>, b: Seq<char>) -> bool
    decreases a.len(),
{
    if a.len() == 0 {
        true
    } else if b.len() == 0 {
        false
    } else if a[0] != b[0] {
        a[0] < b[0]
    } else {
        spec_lex_le(a.skip(1), b.skip(1))
    }
}

fn lex_le(a: &Vec<char>, b: &Vec<char>) -> (r: bool)
    ensures
        r == spec_lex_le(a@, b@),
    decreases a@.len(),
{
    if a.len() == 0 {
        true
    } else if b.len() == 0 {
        false
    } else if a[0] != b[0] {
        a[0] < b[0]
    } else {
        let a2 = sub_chars(a, 1, a.len());
        let b2 = sub_chars(b, 1, b.len());
        proof {
            assert(a@.subrange(1, a@.len() as int) =~= a@.skip(1));
            assert(b@.subrange(1, b@.len() as int) =~= b@.skip(1));
        }
        lex_le(&a2, &b2)
    }
}

/// The lexicographically last directory name starting with the import
/// path: the versioned dependency cache keeps one directory per version,
/// and the last one is taken.
pub fn select_latest_version(dir_names: &Vec<String>, import_path: &str) -> (r: Option<String>)
    ensures
        match r {
            Some(s) => exists|i: int|
                0 <= i < seq_view(dir_names@).len() && seq_view(dir_names@)[i] == s@
                    && spec_match_at(s@, import_path@, 0) && (forall|j: int|
                    0 <= j < seq_view(dir_names@).len() && spec_match_at(
                        #[trigger] seq_view(dir_names@)[j],
                        import_path@,
                        0,
                    ) ==> spec_lex_le(seq_view(dir_names@)[j], s@)),
            None => forall|j: int|
                0 <= j < seq_view(dir_names@).len() ==> !spec_match_at(
                    #[trigger] seq_view(dir_names@)[j],
                    import_path@,
                    0,
                ),
        },
{
    let mut best: Option<String> = None;
    let mut i: usize = 0;
    while i < dir_names.len()
        invariant
            i <= dir_names@.len(),
            seq_view(dir_names@).len() == dir_names@.len(),
            match best {
                Some(s) => exists|k: int|
                    0 <= k < i && seq_view(dir_names@)[k] == s@ && spec_match_at(
                        s@,
                        import_path@,
                        0,
                    ) && (forall|j: int|
                        0 <= j < i && spec_match_at(
                            #[trigger] seq_view(dir_names@)[j],
                            import_path@,
                            0,
                        ) ==> spec_lex_le(seq_view(dir_names@)[j], s@)),
                None => forall|j: int|
                    0 <= j < i ==> !spec_match_at(
                        #[trigger] seq_view(dir_names@)[j],
                        import_path@,
                        0,
                    ),
            },
        decreases dir_names@.len() - i,
    {
        proof {
            assert(seq_view(dir_names@)[i as int] == dir_names@[i as int]@);
        }
        let dv = to_chars(dir_names[i].as_str());
        if match_at(&dv, import_path, 0) {
            match &best {
                Some(b) => {
                    let bv = to_chars(b.as_str());
                    let ghost bvv = bv@;
                    if lex_le(&bv, &dv) {
                        best = Some(dir_names[i].clone());
                        proof {
                            lemma_lex_refl(dv@);
                            assert forall|j: int|
                                0 <= j < i + 1 && spec_match_at(
                                    #[trigger] seq_view(dir_names@)[j],
                                    import_path@,
                                    0,
                                ) implies spec_lex_le(seq_view(dir_names@)[j], dv@) by {
                                if j < i as int {
                                    lemma_lex_trans(seq_view(dir_names@)[j], bvv, dv@);
                                }
                            }
                        }
                    } else {
                        proof {
                            lemma_lex_total(bvv, dv@);
                            assert forall|j: int|
                                0 <= j < i + 1 && spec_match_at(
                                    #[trigger] seq_view(dir_names@)[j],
                                    import_path@,
                                    0,
                                ) implies spec_lex_le(seq_view(dir_names@)[j], bvv) by {
                                if j == i as int {
                                    assert(spec_lex_le(dv@, bvv));
                                }
                            }
                        }
                    }
                },
                None => {
                    best = Some(dir_names[i].clone());
                    proof {
                        lemma_lex_refl(dv@);
                        assert forall|j: int|
                            0 <= j < i + 1 && spec_match_at(
                                #[trigger] seq_view(dir_names@)[j],
                                import_path@,
                                0,
                            ) implies spec_lex_le(seq_view(dir_names@)[j], dv@) by {
                        }
                    }
                },
            }
        }
        i += 1;
    }
    best
}

/// Lexicographic order is transitive.
proof fn lemma_lex_trans(a: Seq<char>, b: Seq<char>, c: Seq<char>)
    requires
        spec_lex_le(a, b),
        spec_lex_le(b, c),
    ensures
        spec_lex_le(a, c),
    decreases a.len() + b.len() + c.len(),
{
    if a.len() > 0 && b.len() > 0 && c.len() > 0 {
        if a[0] == b[0] && b[0] == c[0] {
            lemma_lex_trans(a.skip(1), b.skip(1), c.skip(1));
        }
    }
}

/// Lexicographic order is total.
proof fn lemma_lex_total(a: Seq<char>, b: Seq<char>)
    ensures
        spec_lex_le(a, b) || spec_lex_le(b, a),
    decreases a.len(),
{
    if a.len() > 0 && b.len() > 0 && a[0] == b[0] {
        lemma_lex_total(a.skip(1), b.skip(1));
    }
}

/// Lexicographic order is reflexive.
proof fn lemma_lex_refl(a: Seq<char>)
    ensures
        spec_lex_le(a, a),
    decreases a.len(),
{
    if a.len() > 0 {
        lemma_lex_refl(a.skip(1));
    }
}

} // verus!

verus! {

/// Whether the line, after leading whitespace, starts with `)`.
pub open spec fn spec_paren_close(s: Seq<char>) -> bool {
    let j = crate::chars::spec_space_run_end(s, 0);
    j < s.len() && s[j] == ')'
}

pub fn is_paren_close(v: &Vec<char>) -> (r: bool)
    ensures
        r == spec_paren_close(v@),
{
    let j = space_run_end(v, 0);
    j < v.len() && v[j] == ')'
}

/// The import bindings of a file's lines, folded with a block flag:
/// inside an `import ( ... )` block every import line contributes one
/// binding until the closing parenthesis; outside, a line holding
/// `import` either opens a block (when a parenthesis follows) or is a
/// single-line import.  Bindings start unresolved.
pub open spec fn spec_imports_scan(
    lines: Seq<Seq<char>>,
    i: int,
    in_block: bool,
    acc: Seq<ImportInfoView>,
) -> Seq<ImportInfoView>
    decreases lines.len() - i when 0 <= i
{
    if i >= lines.len() {
        acc
    } else if in_block {
        if spec_paren_close(lines[i]) {
            spec_imports_scan(lines, i + 1, false, acc)
        } else {
            match spec_import_line(lines[i]) {
                Some((a, p)) => spec_imports_scan(
                    lines,
                    i + 1,
                    true,
                    acc.push(ImportInfoView { alias: a, path: p, file_path: None }),
                ),
                None => spec_imports_scan(lines, i + 1, true, acc),
            }
        }
    } else {
        match crate::chars::spec_find_at(lines[i], "import"@, 0) {
            Some(p) => {
                if crate::chars::spec_find_char(lines[i], '(', p) is Some {
                    spec_imports_scan(lines, i + 1, true, acc)
                } else {
                    match spec_import_line(lines[i]) {
                        Some((a, pth)) => spec_imports_scan(
                            lines,
                            i + 1,
                            false,
                            acc.push(ImportInfoView { alias: a, path: pth, file_path: None }),
                        ),
                        None => spec_imports_scan(lines, i + 1, false, acc),
                    }
                }
            },
            None => spec_imports_scan(lines, i + 1, false, acc),
        }
    }
}

/// The import bindings of the lines, per `spec_imports_scan`.
pub fn extract_imports_lines(lines: &Vec<String>) -> (r: Vec<ImportInfo>)
    ensures
        seq_view(r@) == spec_imports_scan(seq_view(lines@), 0, false, Seq::empty()),
{
    proof {
        reveal_strlit("import");
    }
    let ghost lv = seq_view(lines@);
    let mut acc: Vec<ImportInfo> = Vec::new();
    let mut in_block = false;
    let mut li: usize = 0;
    proof {
        assert(seq_view(acc@) =~= Seq::<ImportInfoView>::empty());
    }
    while li < lines.len()
        invariant
            li <= lines@.len(),
            lv == seq_view(lines@),
            lv.len() == lines@.len(),
            spec_imports_scan(lv, li as int, in_block, seq_view(acc@)) == spec_imports_scan(
                lv,
                0,
                false,
                Seq::empty(),
            ),
        decreases lines@.len() - li,
    {
        proof {
            reveal_strlit("import");
            assert(lv[li as int] == lines@[li as int]@);
        }
        let v = to_chars(lines[li].as_str());
        if in_block {
            if is_paren_close(&v) {
                in_block = false;
            } else {
                match parse_import_line(&v) {
                    Some((alias, path)) => {
                        let ghost before = seq_view(acc@);
                        acc.push(ImportInfo { alias, path, file_path: None });
                        proof {
                            crate::models::lemma_seq_view_push(acc@.drop_last(), acc@.last());
                            assert(seq_view(acc@) =~= before.push(acc@.last()@));
                        }
                    },
                    None => {},
                }
            }
        } else {
            match crate::chars::find_at(&v, "import", 0) {
                Some(p) => {
                    match find_char(&v, '(', p) {
                        Some(_) => {
                            in_block = true;
                        },
                        None => {
                            match parse_import_line(&v) {
                                Some((alias, path)) => {
                                    let ghost before = seq_view(acc@);
                                    acc.push(ImportInfo { alias, path, file_path: None });
                                    proof {
                                        crate::models::lemma_seq_view_push(
                                            acc@.drop_last(),
                                            acc@.last(),
                                        );
                                        assert(seq_view(acc@) =~= before.push(acc@.last()@));
                                    }
                                },
                                None => {},
                            }
                        },
                    }
                },
                None => {},
            }
        }
        li += 1;
    }
    acc
}

/// The aliases of a binding list, in order.
pub open spec fn spec_aliases_of(imports: Seq<ImportInfoView>) -> Seq<Seq<char>> {
    imports.map_values(|i: ImportInfoView| i.alias)
}

impl crate::parser::GoParser {
    /// The import bindings written in a file's text, per
    /// `spec_imports_scan` over its lines; every binding's location
    /// starts out unresolved (the caller probes the candidates of
    /// `import_candidates` and `select_latest_version`).
    pub fn extract_imports(&self, file_content: &str) -> (r: Vec<ImportInfo>)
        ensures
            seq_view(r@) == spec_imports_scan(
                crate::schema::spec_lines(file_content@),
                0,
                false,
                Seq::empty(),
            ),
    {
        let lines = crate::schema::lines_of(file_content);
        extract_imports_lines(&lines)
    }
}

/// The candidate locations of an import, in the order they are probed:
/// the module-relative path when the import is prefixed by the module
/// name, then the standard library root, then (after the versioned
/// dependency cache, which the caller lists and narrows with
/// `select_latest_version`) the legacy flat source root.  An import path
/// without a slash is treated as standard-library and gets no candidate.
pub open spec fn spec_import_candidates(
    import_path: Seq<char>,
    module_name: Option<Seq<char>>,
    gomod_dir: Seq<char>,
    goroot: Seq<char>,
    gopath: Seq<char>,
) -> Seq<Seq<char>> {
    if spec_find_char(import_path, '/', 0) is None {
        Seq::empty()
    } else {
        let base: Seq<Seq<char>> = match module_name {
            Some(m) => match spec_module_relative(import_path, m, gomod_dir) {
                Some(c) => seq![c],
                None => Seq::empty(),
            },
            None => Seq::empty(),
        };
        base + seq![
            goroot + "/src/"@ + import_path,
            gopath + "/src/"@ + import_path,
        ]
    }
}

/// The candidate locations of an import, per `spec_import_candidates`.
pub fn import_candidates(
    import_path: &str,
    module_name: Option<&String>,
    gomod_dir: &str,
    goroot: &str,
    gopath: &str,
) -> (r: Vec<String>)
    ensures
        seq_view(r@) == spec_import_candidates(
            import_path@,
            match module_name {
                Some(m) => Some(m@),
                None => None,
            },
            gomod_dir@,
            goroot@,
            gopath@,
        ),
{
    let pv = to_chars(import_path);
    let mut r: Vec<String> = Vec::new();
    proof {
        assert(seq_view(r@) =~= Seq::<Seq<char>>::empty());
    }
    if find_char(&pv, '/', 0).is_none() {
        return r;
    }
    match module_name {
        Some(m) => {
            match module_relative_candidate(import_path, m.as_str(), gomod_dir) {
                Some(c) => {
                    r.push(c);
                    proof {
                        crate::models::lemma_seq_view_push(r@.drop_last(), r@.last());
                    }
                },
                None => {},
            }
        },
        None => {},
    }
    let ghost base = seq_view(r@);
    r.push(crate::chars::str_concat3(goroot, "/src/", import_path));
    r.push(crate::chars::str_concat3(gopath, "/src/", import_path));
    proof {
        assert(seq_view(r@) =~= base + seq![
            goroot@ + "/src/"@ + import_path@,
            gopath@ + "/src/"@ + import_path@,
        ]);
    }
    r
}

} // verus!
