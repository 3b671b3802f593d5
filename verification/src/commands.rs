//! What the editor's commands decide before and after they touch the disk,
//! the terminal or a repository: the checks that refuse an operation, the
//! language of a file, the shell and working directory of a new terminal,
//! and the records sent to the front end.
use vstd::prelude::*;

use crate::settings::{kind_name, ProviderConfig, ProviderKind};
use crate::text::{chars_of, concat, decimal, string_of, usize_to_decimal};

verus! {

/// A file opened in the editor.
#[derive(Debug)]
pub struct FileContent {
    pub path: String,
    pub content: String,
    pub language: String,
}

/// A terminal created in the editor.
#[derive(Debug)]
pub struct TerminalInfo {
    pub id: usize,
    pub title: String,
}

/// The git state shown in the status bar.
#[derive(Debug)]
pub struct GitInfo {
    pub branch: String,
    pub modified: Vec<String>,
    pub added: Vec<String>,
}

/// An open file that changed on disk, for the window that shows it.
#[derive(Debug)]
pub struct FileChangedPayload {
    pub window: String,
    pub path: String,
    /// "modified" or "removed"
    pub kind: String,
}

/// A terminal provider as the front end lists it.
#[derive(Debug)]
pub struct DockProviderInfo {
    pub id: String,
    pub name: String,
    pub kind: String,
    pub enabled: bool,
    pub installed: bool,
}

/// What is kept of a window across restarts.
#[derive(Debug)]
pub struct SessionState {
    pub project_root: Option<String>,
    pub open_files: Vec<String>,
    pub active_file: Option<String>,
    /// The directories expanded in the file tree.
    pub expanded_dirs: Vec<String>,
}

impl SessionState {
    /// No project, no open files.
    pub fn default() -> (r: SessionState)
        ensures
            r.project_root is None,
            r.open_files@.len() == 0,
            r.active_file is None,
            r.expanded_dirs@.len() == 0,
    {
        SessionState {
            project_root: None,
            open_files: Vec::new(),
            active_file: None,
            expanded_dirs: Vec::new(),
        }
    }
}

// ---------------------------------------------------------------------
// File names and languages
// ---------------------------------------------------------------------

/// The index of the last '/' in `p`, if it has one.
pub open spec fn last_slash(p: Seq<char>) -> Option<int>
    decreases p.len(),
{
    if p.len() == 0 {
        None
    } else if p.last() == '/' {
        Some(p.len() - 1)
    } else {
        last_slash(p.drop_last())
    }
}

/// The last separator of a path lies inside it.
pub proof fn lemma_last_slash(p: Seq<char>)
    ensures
        last_slash(p) matches Some(i) ==> 0 <= i < p.len() && p[i] == '/',
    decreases p.len(),
{
    if p.len() > 0 && p.last() != '/' {
        lemma_last_slash(p.drop_last());
    }
}

/// The final component of a path, as `Path::file_name` gives it: trailing
/// separators and "." components are passed over, and a path that ends in
/// "..", or has no normal component at its end, has none.
pub open spec fn file_name_of(p: Seq<char>) -> Option<Seq<char>>
    decreases p.len(),
{
    if p.len() == 0 {
        None
    } else if p.last() == '/' {
        file_name_of(p.drop_last())
    } else {
        let start = match last_slash(p) {
            Some(i) => i + 1,
            None => 0,
        };
        let seg = p.subrange(start, p.len() as int);
        if seg == "."@ {
            if start == 0 {
                None
            } else {
                proof {
                    lemma_last_slash(p);
                }
                file_name_of(p.take(start - 1))
            }
        } else if seg == ".."@ {
            None
        } else {
            Some(seg)
        }
    }
}

/// The index of the last '.' in `name`, if it has one.
pub open spec fn last_dot(name: Seq<char>) -> Option<int>
    decreases name.len(),
{
    if name.len() == 0 {
        None
    } else if name.last() == '.' {
        Some(name.len() - 1)
    } else {
        last_dot(name.drop_last())
    }
}

/// The extension of a file name, as `Path::extension` gives it: what
/// follows the last '.', when something precedes that dot.
pub open spec fn extension_of(name: Seq<char>) -> Option<Seq<char>> {
    if name == ".."@ {
        None
    } else {
        match last_dot(name) {
            Some(i) => if i == 0 {
                None
            } else {
                Some(name.subrange(i + 1, name.len() as int))
            },
            None => None,
        }
    }
}

/// A character with ASCII capitals made small.
pub open spec fn lower_char(c: char) -> char {
    if 'A' <= c && c <= 'Z' {
        ((c as u8) + 32u8) as char
    } else {
        c
    }
}

/// The language the editor highlights a file with, by its lower-cased
/// extension. Only ASCII capitals can lower-case into one of the extensions
/// named here, so lower-casing the ASCII capitals decides the match.
pub open spec fn language_for(ext: Seq<char>) -> Seq<char> {
    let e = ext.map_values(|c: char| lower_char(c));
    if e == "rs"@ {
        "rust"@
    } else if e == "go"@ {
        "go"@
    } else if e == "py"@ {
        "python"@
    } else if e == "ts"@ || e == "tsx"@ {
        "typescript"@
    } else if e == "js"@ || e == "jsx"@ {
        "javascript"@
    } else if e == "c"@ || e == "h"@ {
        "c"@
    } else if e == "cpp"@ || e == "hpp"@ || e == "cc"@ || e == "cxx"@ {
        "cpp"@
    } else if e == "md"@ {
        "markdown"@
    } else if e == "json"@ {
        "json"@
    } else if e == "toml"@ {
        "toml"@
    } else if e == "yaml"@ || e == "yml"@ {
        "yaml"@
    } else if e == "html"@ {
        "html"@
    } else if e == "css"@ {
        "css"@
    } else {
        "plaintext"@
    }
}

/// An extension with ASCII capitals made small.
pub open spec fn lowered(ext: Seq<char>) -> Seq<char> {
    ext.map_values(|c: char| lower_char(c))
}

/// The language table: every extension the editor knows, whatever the case
/// of its letters, gives its language, and every other extension gives
/// plain text.
pub proof fn lemma_language_table(ext: Seq<char>)
    ensures
        lowered(ext) == "rs"@ ==> language_for(ext) == "rust"@,
        lowered(ext) == "go"@ ==> language_for(ext) == "go"@,
        lowered(ext) == "py"@ ==> language_for(ext) == "python"@,
        lowered(ext) == "ts"@ ==> language_for(ext) == "typescript"@,
        lowered(ext) == "tsx"@ ==> language_for(ext) == "typescript"@,
        lowered(ext) == "js"@ ==> language_for(ext) == "javascript"@,
        lowered(ext) == "jsx"@ ==> language_for(ext) == "javascript"@,
        lowered(ext) == "c"@ ==> language_for(ext) == "c"@,
        lowered(ext) == "h"@ ==> language_for(ext) == "c"@,
        lowered(ext) == "cpp"@ ==> language_for(ext) == "cpp"@,
        lowered(ext) == "hpp"@ ==> language_for(ext) == "cpp"@,
        lowered(ext) == "cc"@ ==> language_for(ext) == "cpp"@,
        lowered(ext) == "cxx"@ ==> language_for(ext) == "cpp"@,
        lowered(ext) == "md"@ ==> language_for(ext) == "markdown"@,
        lowered(ext) == "json"@ ==> language_for(ext) == "json"@,
        lowered(ext) == "toml"@ ==> language_for(ext) == "toml"@,
        lowered(ext) == "yaml"@ ==> language_for(ext) == "yaml"@,
        lowered(ext) == "yml"@ ==> language_for(ext) == "yaml"@,
        lowered(ext) == "html"@ ==> language_for(ext) == "html"@,
        lowered(ext) == "css"@ ==> language_for(ext) == "css"@,
        (lowered(ext) != "rs"@ && lowered(ext) != "go"@ && lowered(ext) != "py"@ && lowered(ext) != "ts"@ && lowered(ext) != "tsx"@ && lowered(ext) != "js"@ && lowered(ext) != "jsx"@ && lowered(ext) != "c"@ && lowered(ext) != "h"@ && lowered(ext) != "cpp"@ && lowered(ext) != "hpp"@ && lowered(ext) != "cc"@ && lowered(ext) != "cxx"@ && lowered(ext) != "md"@ && lowered(ext) != "json"@ && lowered(ext) != "toml"@ && lowered(ext) != "yaml"@ && lowered(ext) != "yml"@ && lowered(ext) != "html"@ && lowered(ext) != "css"@) ==> language_for(ext) == "plaintext"@,
{
    reveal_strlit("c");
    reveal_strlit("cc");
    reveal_strlit("cpp");
    reveal_strlit("css");
    reveal_strlit("cxx");
    reveal_strlit("go");
    reveal_strlit("h");
    reveal_strlit("hpp");
    reveal_strlit("html");
    reveal_strlit("javascript");
    reveal_strlit("js");
    reveal_strlit("json");
    reveal_strlit("jsx");
    reveal_strlit("markdown");
    reveal_strlit("md");
    reveal_strlit("plaintext");
    reveal_strlit("py");
    reveal_strlit("python");
    reveal_strlit("rs");
    reveal_strlit("rust");
    reveal_strlit("toml");
    reveal_strlit("ts");
    reveal_strlit("tsx");
    reveal_strlit("typescript");
    reveal_strlit("yaml");
    reveal_strlit("yml");
    if lowered(ext) == "go"@ {
        assert(lowered(ext)[0] != "rs"@[0]);
    }
    if lowered(ext) == "py"@ {
        assert(lowered(ext)[0] != "rs"@[0]);
        assert(lowered(ext)[0] != "go"@[0]);
    }
    if lowered(ext) == "ts"@ {
        assert(lowered(ext)[0] != "rs"@[0]);
        assert(lowered(ext)[0] != "go"@[0]);
        assert(lowered(ext)[0] != "py"@[0]);
    }
    if lowered(ext) == "tsx"@ {
        assert(lowered(ext).len() != "rs"@.len());
        assert(lowered(ext).len() != "go"@.len());
        assert(lowered(ext).len() != "py"@.len());
        assert(lowered(ext).len() != "ts"@.len());
    }
    if lowered(ext) == "js"@ {
        assert(lowered(ext)[0] != "rs"@[0]);
        assert(lowered(ext)[0] != "go"@[0]);
        assert(lowered(ext)[0] != "py"@[0]);
        assert(lowered(ext)[0] != "ts"@[0]);
        assert(lowered(ext).len() != "tsx"@.len());
    }
    if lowered(ext) == "jsx"@ {
        assert(lowered(ext).len() != "rs"@.len());
        assert(lowered(ext).len() != "go"@.len());
        assert(lowered(ext).len() != "py"@.len());
        assert(lowered(ext).len() != "ts"@.len());
        assert(lowered(ext)[0] != "tsx"@[0]);
        assert(lowered(ext).len() != "js"@.len());
    }
    if lowered(ext) == "c"@ {
        assert(lowered(ext).len() != "rs"@.len());
        assert(lowered(ext).len() != "go"@.len());
        assert(lowered(ext).len() != "py"@.len());
        assert(lowered(ext).len() != "ts"@.len());
        assert(lowered(ext).len() != "tsx"@.len());
        assert(lowered(ext).len() != "js"@.len());
        assert(lowered(ext).len() != "jsx"@.len());
    }
    if lowered(ext) == "h"@ {
        assert(lowered(ext).len() != "rs"@.len());
        assert(lowered(ext).len() != "go"@.len());
        assert(lowered(ext).len() != "py"@.len());
        assert(lowered(ext).len() != "ts"@.len());
        assert(lowered(ext).len() != "tsx"@.len());
        assert(lowered(ext).len() != "js"@.len());
        assert(lowered(ext).len() != "jsx"@.len());
        assert(lowered(ext)[0] != "c"@[0]);
    }
    if lowered(ext) == "cpp"@ {
        assert(lowered(ext).len() != "rs"@.len());
        assert(lowered(ext).len() != "go"@.len());
        assert(lowered(ext).len() != "py"@.len());
        assert(lowered(ext).len() != "ts"@.len());
        assert(lowered(ext)[0] != "tsx"@[0]);
        assert(lowered(ext).len() != "js"@.len());
        assert(lowered(ext)[0] != "jsx"@[0]);
        assert(lowered(ext).len() != "c"@.len());
        assert(lowered(ext).len() != "h"@.len());
    }
    if lowered(ext) == "hpp"@ {
        assert(lowered(ext).len() != "rs"@.len());
        assert(lowered(ext).len() != "go"@.len());
        assert(lowered(ext).len() != "py"@.len());
        assert(lowered(ext).len() != "ts"@.len());
        assert(lowered(ext)[0] != "tsx"@[0]);
        assert(lowered(ext).len() != "js"@.len());
        assert(lowered(ext)[0] != "jsx"@[0]);
        assert(lowered(ext).len() != "c"@.len());
        assert(lowered(ext).len() != "h"@.len());
        assert(lowered(ext)[0] != "cpp"@[0]);
    }
    if lowered(ext) == "cc"@ {
        assert(lowered(ext)[0] != "rs"@[0]);
        assert(lowered(ext)[0] != "go"@[0]);
        assert(lowered(ext)[0] != "py"@[0]);
        assert(lowered(ext)[0] != "ts"@[0]);
        assert(lowered(ext).len() != "tsx"@.len());
        assert(lowered(ext)[0] != "js"@[0]);
        assert(lowered(ext).len() != "jsx"@.len());
        assert(lowered(ext).len() != "c"@.len());
        assert(lowered(ext).len() != "h"@.len());
        assert(lowered(ext).len() != "cpp"@.len());
        assert(lowered(ext).len() != "hpp"@.len());
    }
    if lowered(ext) == "cxx"@ {
        assert(lowered(ext).len() != "rs"@.len());
        assert(lowered(ext).len() != "go"@.len());
        assert(lowered(ext).len() != "py"@.len());
        assert(lowered(ext).len() != "ts"@.len());
        assert(lowered(ext)[0] != "tsx"@[0]);
        assert(lowered(ext).len() != "js"@.len());
        assert(lowered(ext)[0] != "jsx"@[0]);
        assert(lowered(ext).len() != "c"@.len());
        assert(lowered(ext).len() != "h"@.len());
        assert(lowered(ext)[1] != "cpp"@[1]);
        assert(lowered(ext)[0] != "hpp"@[0]);
        assert(lowered(ext).len() != "cc"@.len());
    }
    if lowered(ext) == "md"@ {
        assert(lowered(ext)[0] != "rs"@[0]);
        assert(lowered(ext)[0] != "go"@[0]);
        assert(lowered(ext)[0] != "py"@[0]);
        assert(lowered(ext)[0] != "ts"@[0]);
        assert(lowered(ext).len() != "tsx"@.len());
        assert(lowered(ext)[0] != "js"@[0]);
        assert(lowered(ext).len() != "jsx"@.len());
        assert(lowered(ext).len() != "c"@.len());
        assert(lowered(ext).len() != "h"@.len());
        assert(lowered(ext).len() != "cpp"@.len());
        assert(lowered(ext).len() != "hpp"@.len());
        assert(lowered(ext)[0] != "cc"@[0]);
        assert(lowered(ext).len() != "cxx"@.len());
    }
    if lowered(ext) == "json"@ {
        assert(lowered(ext).len() != "rs"@.len());
        assert(lowered(ext).len() != "go"@.len());
        assert(lowered(ext).len() != "py"@.len());
        assert(lowered(ext).len() != "ts"@.len());
        assert(lowered(ext).len() != "tsx"@.len());
        assert(lowered(ext).len() != "js"@.len());
        assert(lowered(ext).len() != "jsx"@.len());
        assert(lowered(ext).len() != "c"@.len());
        assert(lowered(ext).len() != "h"@.len());
        assert(lowered(ext).len() != "cpp"@.len());
        assert(lowered(ext).len() != "hpp"@.len());
        assert(lowered(ext).len() != "cc"@.len());
        assert(lowered(ext).len() != "cxx"@.len());
        assert(lowered(ext).len() != "md"@.len());
    }
    if lowered(ext) == "toml"@ {
        assert(lowered(ext).len() != "rs"@.len());
        assert(lowered(ext).len() != "go"@.len());
        assert(lowered(ext).len() != "py"@.len());
        assert(lowered(ext).len() != "ts"@.len());
        assert(lowered(ext).len() != "tsx"@.len());
        assert(lowered(ext).len() != "js"@.len());
        assert(lowered(ext).len() != "jsx"@.len());
        assert(lowered(ext).len() != "c"@.len());
        assert(lowered(ext).len() != "h"@.len());
        assert(lowered(ext).len() != "cpp"@.len());
        assert(lowered(ext).len() != "hpp"@.len());
        assert(lowered(ext).len() != "cc"@.len());
        assert(lowered(ext).len() != "cxx"@.len());
        assert(lowered(ext).len() != "md"@.len());
        assert(lowered(ext)[0] != "json"@[0]);
    }
    if lowered(ext) == "yaml"@ {
        assert(lowered(ext).len() != "rs"@.len());
        assert(lowered(ext).len() != "go"@.len());
        assert(lowered(ext).len() != "py"@.len());
        assert(lowered(ext).len() != "ts"@.len());
        assert(lowered(ext).len() != "tsx"@.len());
        assert(lowered(ext).len() != "js"@.len());
        assert(lowered(ext).len() != "jsx"@.len());
        assert(lowered(ext).len() != "c"@.len());
        assert(lowered(ext).len() != "h"@.len());
        assert(lowered(ext).len() != "cpp"@.len());
        assert(lowered(ext).len() != "hpp"@.len());
        assert(lowered(ext).len() != "cc"@.len());
        assert(lowered(ext).len() != "cxx"@.len());
        assert(lowered(ext).len() != "md"@.len());
        assert(lowered(ext)[0] != "json"@[0]);
        assert(lowered(ext)[0] != "toml"@[0]);
    }
    if lowered(ext) == "yml"@ {
        assert(lowered(ext).len() != "rs"@.len());
        assert(lowered(ext).len() != "go"@.len());
        assert(lowered(ext).len() != "py"@.len());
        assert(lowered(ext).len() != "ts"@.len());
        assert(lowered(ext)[0] != "tsx"@[0]);
        assert(lowered(ext).len() != "js"@.len());
        assert(lowered(ext)[0] != "jsx"@[0]);
        assert(lowered(ext).len() != "c"@.len());
        assert(lowered(ext).len() != "h"@.len());
        assert(lowered(ext)[0] != "cpp"@[0]);
        assert(lowered(ext)[0] != "hpp"@[0]);
        assert(lowered(ext).len() != "cc"@.len());
        assert(lowered(ext)[0] != "cxx"@[0]);
        assert(lowered(ext).len() != "md"@.len());
        assert(lowered(ext).len() != "json"@.len());
        assert(lowered(ext).len() != "toml"@.len());
        assert(lowered(ext).len() != "yaml"@.len());
    }
    if lowered(ext) == "html"@ {
        assert(lowered(ext).len() != "rs"@.len());
        assert(lowered(ext).len() != "go"@.len());
        assert(lowered(ext).len() != "py"@.len());
        assert(lowered(ext).len() != "ts"@.len());
        assert(lowered(ext).len() != "tsx"@.len());
        assert(lowered(ext).len() != "js"@.len());
        assert(lowered(ext).len() != "jsx"@.len());
        assert(lowered(ext).len() != "c"@.len());
        assert(lowered(ext).len() != "h"@.len());
        assert(lowered(ext).len() != "cpp"@.len());
        assert(lowered(ext).len() != "hpp"@.len());
        assert(lowered(ext).len() != "cc"@.len());
        assert(lowered(ext).len() != "cxx"@.len());
        assert(lowered(ext).len() != "md"@.len());
        assert(lowered(ext)[0] != "json"@[0]);
        assert(lowered(ext)[0] != "toml"@[0]);
        assert(lowered(ext)[0] != "yaml"@[0]);
        assert(lowered(ext).len() != "yml"@.len());
    }
    if lowered(ext) == "css"@ {
        assert(lowered(ext).len() != "rs"@.len());
        assert(lowered(ext).len() != "go"@.len());
        assert(lowered(ext).len() != "py"@.len());
        assert(lowered(ext).len() != "ts"@.len());
        assert(lowered(ext)[0] != "tsx"@[0]);
        assert(lowered(ext).len() != "js"@.len());
        assert(lowered(ext)[0] != "jsx"@[0]);
        assert(lowered(ext).len() != "c"@.len());
        assert(lowered(ext).len() != "h"@.len());
        assert(lowered(ext)[1] != "cpp"@[1]);
        assert(lowered(ext)[0] != "hpp"@[0]);
        assert(lowered(ext).len() != "cc"@.len());
        assert(lowered(ext)[1] != "cxx"@[1]);
        assert(lowered(ext).len() != "md"@.len());
        assert(lowered(ext).len() != "json"@.len());
        assert(lowered(ext).len() != "toml"@.len());
        assert(lowered(ext).len() != "yaml"@.len());
        assert(lowered(ext)[0] != "yml"@[0]);
        assert(lowered(ext).len() != "html"@.len());
    }
}

/// Lower-casing an extension first does not change its language.
pub proof fn lemma_language_ignores_case(ext: Seq<char>)
    ensures
        language_for(lowered(ext)) == language_for(ext),
{
    assert(lowered(lowered(ext)) =~= lowered(ext));
}

proof fn lemma_last_dot_after(stem: Seq<char>, e: Seq<char>)
    requires
        forall|i: int| 0 <= i < e.len() ==> e[i] != '.',
    ensures
        last_dot(stem + seq!['.'] + e) == Some(stem.len() as int),
    decreases e.len(),
{
    let n = stem + seq!['.'] + e;
    if e.len() > 0 {
        assert(n.drop_last() =~= stem + seq!['.'] + e.drop_last());
        lemma_last_dot_after(stem, e.drop_last());
    } else {
        assert(n.last() == '.');
    }
}

proof fn lemma_last_slash_after(dir: Seq<char>, name: Seq<char>)
    requires
        forall|i: int| 0 <= i < name.len() ==> name[i] != '/',
    ensures
        last_slash(dir + seq!['/'] + name) == Some(dir.len() as int),
    decreases name.len(),
{
    let p = dir + seq!['/'] + name;
    if name.len() > 0 {
        assert(p.drop_last() =~= dir + seq!['/'] + name.drop_last());
        lemma_last_slash_after(dir, name.drop_last());
    } else {
        assert(p.last() == '/');
    }
}

/// A file `stem.ext` in any directory is detected by its extension: the
/// path `dir/stem.ext`, with a non-empty stem, no '/' in the name and no
/// '.' in the extension, has the language of `ext`.
pub proof fn lemma_language_of_named_file(dir: Seq<char>, stem: Seq<char>, ext: Seq<char>)
    requires
        stem.len() > 0,
        forall|i: int| 0 <= i < stem.len() ==> stem[i] != '/',
        forall|i: int| 0 <= i < ext.len() ==> ext[i] != '/' && ext[i] != '.',
    ensures
        language_of_path(dir + seq!['/'] + stem + seq!['.'] + ext) == language_for(ext),
{
    let name = stem + seq!['.'] + ext;
    let p = dir + seq!['/'] + name;
    assert(p =~= dir + seq!['/'] + stem + seq!['.'] + ext);
    assert forall|i: int| 0 <= i < name.len() implies name[i] != '/' by {
        if i < stem.len() {
            assert(name[i] == stem[i]);
        } else if i > stem.len() {
            assert(name[i] == ext[i - stem.len() - 1]);
        }
    }
    lemma_last_slash_after(dir, name);
    assert(p.last() != '/') by {
        assert(p.last() == name.last());
    }
    assert(p.subrange(dir.len() + 1int, p.len() as int) =~= name);
    reveal_strlit(".");
    reveal_strlit("..");
    if ext.len() == 0 && stem =~= seq!['.'] {
        assert(name =~= ".."@);
        assert(file_name_of(p) is None);
        assert(ext =~= Seq::<char>::empty());
    } else {
        assert(name != "."@ && name != ".."@) by {
            assert(name.len() >= 2);
            if name == ".."@ {
                assert(name.len() == 2);
                assert(ext.len() == 0 && stem.len() == 1);
                assert(name[0] == stem[0] && name[0] == '.');
                assert(stem =~= seq!['.']);
            }
        }
        assert(file_name_of(p) == Some(name));
        lemma_last_dot_after(stem, ext);
        assert(name.subrange(stem.len() + 1int, name.len() as int) =~= ext);
        assert(extension_of(name) == Some(ext));
    }
}

/// The language of the file at `path`; a file without an extension is
/// plain text.
pub open spec fn language_of_path(path: Seq<char>) -> Seq<char> {
    match file_name_of(path) {
        Some(name) => match extension_of(name) {
            Some(ext) => language_for(ext),
            None => language_for(Seq::empty()),
        },
        None => language_for(Seq::empty()),
    }
}

/// Where the last `c` in `cs[..end]` is.
fn last_index_of(cs: &Vec<char>, end: usize, c: char) -> (r: Option<usize>)
    requires
        end <= cs@.len(),
    ensures
        c == '/' ==> match r {
            Some(i) => last_slash(cs@.take(end as int)) == Some(i as int),
            None => last_slash(cs@.take(end as int)) is None,
        },
        c == '.' ==> match r {
            Some(i) => last_dot(cs@.take(end as int)) == Some(i as int),
            None => last_dot(cs@.take(end as int)) is None,
        },
        r matches Some(i) ==> i < end,
{
    let mut e = end;
    while e > 0
        invariant
            e <= end <= cs@.len(),
            c == '/' ==> last_slash(cs@.take(end as int)) == last_slash(cs@.take(e as int)),
            c == '.' ==> last_dot(cs@.take(end as int)) == last_dot(cs@.take(e as int)),
        decreases e,
    {
        assert(cs@.take(e as int).drop_last() =~= cs@.take(e - 1));
        if cs[e - 1] == c {
            return Some(e - 1);
        }
        e -= 1;
    }
    None
}

/// The final component of `path`, as `Path::file_name` gives it.
pub fn file_name(path: &str) -> (r: Option<String>)
    ensures
        match (r, file_name_of(path@)) {
            (Some(a), Some(b)) => a@ == b,
            (None, None) => true,
            _ => false,
        },
{
    let cs = chars_of(path);
    let mut end = cs.len();
    assert(cs@.take(end as int) =~= path@);
    loop
        invariant
            end <= cs@.len(),
            cs@ == path@,
            file_name_of(path@) == file_name_of(cs@.take(end as int)),
        decreases end,
    {
        let ghost p = cs@.take(end as int);
        if end == 0 {
            return None;
        }
        if cs[end - 1] == '/' {
            assert(p.drop_last() =~= cs@.take(end - 1));
            end -= 1;
        } else {
            let start = match last_index_of(&cs, end, '/') {
                Some(i) => i + 1,
                None => 0,
            };
            let seg = string_of(&cs, start, end);
            assert(p.subrange(start as int, p.len() as int) =~= seg@);
            proof {
                reveal_strlit(".");
                reveal_strlit("..");
            }
            if end - start == 1 && cs[start] == '.' {
                assert(seg@ =~= "."@);
                if start == 0 {
                    return None;
                }
                assert(p.take(start - 1) =~= cs@.take(start - 1));
                end = start - 1;
            } else if end - start == 2 && cs[start] == '.' && cs[start + 1] == '.' {
                assert(seg@ =~= ".."@);
                return None;
            } else {
                assert(seg@ != "."@ && seg@ != ".."@) by {
                    if seg@ == "."@ {
                        assert(seg@.len() == 1 && seg@[0] == '.');
                    }
                    if seg@ == ".."@ {
                        assert(seg@.len() == 2 && seg@[0] == '.' && seg@[1] == '.');
                    }
                }
                return Some(seg);
            }
        }
    }
}

/// The extension of a file name, as `Path::extension` gives it.
pub fn extension(name: &str) -> (r: Option<String>)
    ensures
        match (r, extension_of(name@)) {
            (Some(a), Some(b)) => a@ == b,
            (None, None) => true,
            _ => false,
        },
{
    let cs = chars_of(name);
    proof {
        reveal_strlit("..");
    }
    if cs.len() == 2 && cs[0] == '.' && cs[1] == '.' {
        assert(name@ =~= ".."@);
        return None;
    }
    assert(name@ != ".."@) by {
        if name@ == ".."@ {
            assert(name@.len() == 2 && name@[0] == '.' && name@[1] == '.');
        }
    }
    assert(cs@.take(cs@.len() as int) =~= name@);
    match last_index_of(&cs, cs.len(), '.') {
        Some(i) => if i == 0 {
            None
        } else {
            Some(string_of(&cs, i + 1, cs.len()))
        },
        None => None,
    }
}

/// Whether `ext`, with ASCII capitals made small, is `key`.
fn lower_is(ext: &Vec<char>, key: &str) -> (r: bool)
    ensures
        r == (ext@.map_values(|c: char| lower_char(c)) == key@),
{
    let k = chars_of(key);
    let ghost low = ext@.map_values(|c: char| lower_char(c));
    if ext.len() != k.len() {
        return false;
    }
    let mut i = 0usize;
    while i < ext.len()
        invariant
            i <= ext@.len(),
            ext@.len() == k@.len(),
            k@ == key@,
            low == ext@.map_values(|c: char| lower_char(c)),
            forall|j: int| 0 <= j < i ==> low[j] == k@[j],
        decreases ext@.len() - i,
    {
        let c = ext[i];
        let l = if 'A' <= c && c <= 'Z' {
            ((c as u8) + 32u8) as char
        } else {
            c
        };
        assert(l == low[i as int]);
        if l != k[i] {
            return false;
        }
        i += 1;
    }
    assert(low =~= key@);
    true
}

/// The language of the file at `path`.
pub fn detect_language(path: &str) -> (r: String)
    ensures
        r@ == language_of_path(path@),
{
    let ext: Vec<char> = match file_name(path) {
        Some(name) => match extension(name.as_str()) {
            Some(e) => chars_of(e.as_str()),
            None => Vec::new(),
        },
        None => Vec::new(),
    };
    assert(language_of_path(path@) == language_for(ext@)) by {
        if ext@.len() == 0 {
            assert(ext@ =~= Seq::<char>::empty());
        }
    }
    let name = if lower_is(&ext, "rs") {
        "rust"
    } else if lower_is(&ext, "go") {
        "go"
    } else if lower_is(&ext, "py") {
        "python"
    } else if lower_is(&ext, "ts") || lower_is(&ext, "tsx") {
        "typescript"
    } else if lower_is(&ext, "js") || lower_is(&ext, "jsx") {
        "javascript"
    } else if lower_is(&ext, "c") || lower_is(&ext, "h") {
        "c"
    } else if lower_is(&ext, "cpp") || lower_is(&ext, "hpp") || lower_is(&ext, "cc") || lower_is(
        &ext,
        "cxx",
    ) {
        "cpp"
    } else if lower_is(&ext, "md") {
        "markdown"
    } else if lower_is(&ext, "json") {
        "json"
    } else if lower_is(&ext, "toml") {
        "toml"
    } else if lower_is(&ext, "yaml") || lower_is(&ext, "yml") {
        "yaml"
    } else if lower_is(&ext, "html") {
        "html"
    } else if lower_is(&ext, "css") {
        "css"
    } else {
        "plaintext"
    };
    name.to_owned()
}

// ---------------------------------------------------------------------
// Terminals
// ---------------------------------------------------------------------

/// The record of a new terminal: its title counts terminals from one.
pub fn terminal_info(id: usize) -> (r: TerminalInfo)
    requires
        id < usize::MAX,
    ensures
        r.id == id,
        r.title@ == "Terminal "@ + decimal(id as nat + 1),
{
    let n = usize_to_decimal(id + 1);
    TerminalInfo { id, title: concat("Terminal ", n.as_str()) }
}

/// The working directory of a new terminal: the requested one when it is a
/// directory, else the window's project root, else the process's own.
pub fn terminal_cwd(
    requested: Option<String>,
    requested_is_dir: bool,
    window_root: Option<String>,
    process_dir: Option<String>,
) -> (r: Option<String>)
    ensures
        r == (if requested is Some && requested_is_dir {
            requested
        } else if window_root is Some {
            window_root
        } else {
            process_dir
        }),
{
    match requested {
        Some(c) if requested_is_dir => Some(c),
        _ => match window_root {
            Some(w) => Some(w),
            None => process_dir,
        },
    }
}

/// The shell of a new terminal when none is asked for: the account's login
/// shell when it names one, else `$SHELL`, else "/bin/zsh".
pub fn login_shell(account_shell: Option<String>, env_shell: Option<String>) -> (r: String)
    ensures
        r@ == (match account_shell {
            Some(s) if s@.len() > 0 => s@,
            _ => match env_shell {
                Some(e) => e@,
                None => "/bin/zsh"@,
            },
        }),
{
    match account_shell {
        Some(s) if !s.as_str().is_empty() => s,
        _ => match env_shell {
            Some(e) => e,
            None => "/bin/zsh".to_owned(),
        },
    }
}

/// A provider as the front end lists it.
pub fn provider_info(p: &ProviderConfig, installed: bool) -> (r: DockProviderInfo)
    ensures
        r.id@ == p.id@,
        r.name@ == p.name@,
        r.kind@ == (match p.kind {
            ProviderKind::Applescript => "applescript"@,
            ProviderKind::Cli => "cli"@,
        }),
        r.enabled == p.enabled,
        r.installed == installed,
{
    DockProviderInfo {
        id: p.id.clone(),
        name: p.name.clone(),
        kind: kind_name(p.kind),
        enabled: p.enabled,
        installed,
    }
}

// ---------------------------------------------------------------------
// Checks before touching the disk
// ---------------------------------------------------------------------

/// A project can be opened only at a path that exists.
pub fn check_open_project(exists: bool) -> (r: Result<(), String>)
    ensures
        exists <==> r is Ok,
        r matches Err(e) ==> e@ == "Path does not exist"@,
{
    if !exists {
        return Err("Path does not exist".to_owned());
    }
    Ok(())
}

/// Only a directory can be listed.
pub fn check_list_dir(is_dir: bool) -> (r: Result<(), String>)
    ensures
        is_dir <==> r is Ok,
        r matches Err(e) ==> e@ == "Not a directory"@,
{
    if !is_dir {
        return Err("Not a directory".to_owned());
    }
    Ok(())
}

/// Only a file that exists can be read.
pub fn check_read_file(exists: bool) -> (r: Result<(), String>)
    ensures
        exists <==> r is Ok,
        r matches Err(e) ==> e@ == "File does not exist"@,
{
    if !exists {
        return Err("File does not exist".to_owned());
    }
    Ok(())
}

/// A rename needs its source and must not overwrite anything.
pub fn check_rename(source_exists: bool, target_exists: bool) -> (r: Result<(), String>)
    ensures
        (source_exists && !target_exists) <==> r is Ok,
        !source_exists ==> (r matches Err(e) && e@ == "源路径不存在"@),
        source_exists && target_exists ==> (r matches Err(e) && e@ == "目标名称已存在"@),
{
    if !source_exists {
        return Err("源路径不存在".to_owned());
    }
    if target_exists {
        return Err("目标名称已存在".to_owned());
    }
    Ok(())
}

/// A new file must not exist yet.
pub fn check_create_file(exists: bool) -> (r: Result<(), String>)
    ensures
        !exists <==> r is Ok,
        r matches Err(e) ==> e@ == "文件已存在"@,
{
    if exists {
        return Err("文件已存在".to_owned());
    }
    Ok(())
}

/// A new directory must not exist yet.
pub fn check_create_dir(exists: bool) -> (r: Result<(), String>)
    ensures
        !exists <==> r is Ok,
        r matches Err(e) ==> e@ == "文件夹已存在"@,
{
    if exists {
        return Err("文件夹已存在".to_owned());
    }
    Ok(())
}

/// How a path is deleted.
#[derive(Clone, Copy, Debug, PartialEq, Eq, Structural)]
pub enum Removal {
    /// The directory and everything below it.
    Tree,
    /// The file alone.
    File,
}

/// A path can be deleted only if it exists; a directory goes with all it
/// holds.
pub fn check_delete(exists: bool, is_dir: bool) -> (r: Result<Removal, String>)
    ensures
        exists <==> r is Ok,
        r matches Err(e) ==> e@ == "路径不存在"@,
        r matches Ok(k) ==> (k == Removal::Tree <==> is_dir),
{
    if !exists {
        return Err("路径不存在".to_owned());
    }
    if is_dir {
        Ok(Removal::Tree)
    } else {
        Ok(Removal::File)
    }
}

/// A copy needs its source and must not overwrite anything.
pub fn check_copy(source_exists: bool, target_exists: bool) -> (r: Result<(), String>)
    ensures
        (source_exists && !target_exists) <==> r is Ok,
        !source_exists ==> (r matches Err(e) && e@ == "源路径不存在"@),
        source_exists && target_exists ==> (r matches Err(e) && e@ == "目标路径已存在"@),
{
    if !source_exists {
        return Err("源路径不存在".to_owned());
    }
    if target_exists {
        return Err("目标路径已存在".to_owned());
    }
    Ok(())
}

// ---------------------------------------------------------------------
// Git state of a window
// ---------------------------------------------------------------------

/// Where the git state of a window is read from.
#[derive(Debug)]
pub enum GitSource {
    /// The repository the window's project root is in.
    ProjectRepo,
    /// The first repository found below a project root that is not one.
    NestedRepo(String),
}

/// The window's own repository when it has one, else the first repository
/// below its root, else "No git repository".
pub fn git_source(has_project_repo: bool, first_repo: Option<String>) -> (r: Result<GitSource, String>)
    ensures
        has_project_repo ==> r matches Ok(GitSource::ProjectRepo),
        !has_project_repo ==> match first_repo {
            Some(p) => r matches Ok(GitSource::NestedRepo(q)) && q@ == p@,
            None => r matches Err(e) && e@ == "No git repository"@,
        },
{
    if has_project_repo {
        return Ok(GitSource::ProjectRepo);
    }
    match first_repo {
        Some(p) => Ok(GitSource::NestedRepo(p)),
        None => Err("No git repository".to_owned()),
    }
}

/// The file tree of a window: its nodes when a project is open, else "No
/// project opened".
pub fn open_tree_nodes(tree: Option<&crate::file_tree::FileTree>) -> (r: Result<Vec<crate::file_tree::FileNode>, String>)
    ensures
        match (tree, r) {
            (Some(t), Ok(nodes)) => nodes@.len() == t.children@.len() && forall|i: int|
                0 <= i < nodes@.len() ==> crate::file_tree::same_node(t.children@[i], #[trigger] nodes@[i]),
            (None, Err(e)) => e@ == "No project opened"@,
            _ => false,
        },
{
    match tree {
        Some(t) => Ok(t.to_nodes()),
        None => Err("No project opened".to_owned()),
    }
}

} // verus!
