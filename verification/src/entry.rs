//! The uniform record of a filesystem entry and its normalization rules:
//! directory resolution through symlinks, POSIX-style permission strings,
//! lowercased extensions, and the dot-file convention.
use vstd::prelude::*;
use vstd::string::StrSliceExecFns;
use vstd::string::StringExecFns;

use crate::text::{lower_of, lower_str, string_from_chars};

verus! {

/// A filesystem entry as the crawler reports it.
#[derive(Debug)]
pub struct FileEntry {
    pub name: String,
    pub path: String,
    pub is_dir: bool,
    pub is_symlink: bool,
    pub size: u64,
    pub modified: i64,
    pub permissions: String,
    pub owner: u32,
    pub group: u32,
    pub extension: Option<String>,
    pub hidden: bool,
}

/// Metadata of the resolved target of a symlink.
#[derive(Debug, Clone, Copy)]
pub struct TargetMeta {
    pub is_dir: bool,
    pub len: u64,
}

/// Plain metadata of one directory entry, read without following the link
/// (except for `target`, which describes what the link resolves to, when
/// that could be determined).
#[derive(Debug, Clone, Copy)]
pub struct RawMetadata {
    pub is_symlink: bool,
    pub len: u64,
    pub mode: u32,
    pub modified: i64,
    pub owner: u32,
    pub group: u32,
    pub target: Option<TargetMeta>,
}

/// A name is hidden when it begins with a dot.
pub open spec fn starts_with_dot(name: Seq<char>) -> bool {
    name.len() > 0 && name[0] == '.'
}

/// The record invariant: directories carry no size and no extension, and
/// hiddenness derives from the name alone.
pub open spec fn entry_wf(e: FileEntry) -> bool {
    &&& e.is_dir ==> e.size == 0 && e.extension is None
    &&& e.hidden == starts_with_dot(e.name@)
}

/// Directory classification follows the link: an entry is a directory when
/// its resolved target is one.
pub open spec fn resolved_is_dir(meta: RawMetadata) -> bool {
    match meta.target {
        Some(t) => t.is_dir,
        None => false,
    }
}

/// Directories weigh nothing; files weigh what their target weighs, or the
/// entry itself when the target could not be read.
pub open spec fn resolved_size(meta: RawMetadata) -> u64 {
    if resolved_is_dir(meta) {
        0
    } else {
        match meta.target {
            Some(t) => t.len,
            None => meta.len,
        }
    }
}

/// The ten characters of a POSIX-style permission string.
pub open spec fn perm_chars(mode: u32, is_dir: bool) -> Seq<char> {
    seq![
        if is_dir { 'd' } else { '-' },
        if mode & 0o400 != 0 { 'r' } else { '-' },
        if mode & 0o200 != 0 { 'w' } else { '-' },
        if mode & 0o100 != 0 { 'x' } else { '-' },
        if mode & 0o040 != 0 { 'r' } else { '-' },
        if mode & 0o020 != 0 { 'w' } else { '-' },
        if mode & 0o010 != 0 { 'x' } else { '-' },
        if mode & 0o004 != 0 { 'r' } else { '-' },
        if mode & 0o002 != 0 { 'w' } else { '-' },
        if mode & 0o001 != 0 { 'x' } else { '-' },
    ]
}

/// Render a POSIX mode as the usual `drwxrwxrwx` string.
pub fn mode_to_string(mode: u32, is_dir: bool) -> (r: String)
    ensures
        r@ == perm_chars(mode, is_dir),
{
    let mut v: Vec<char> = Vec::new();
    v.push(if is_dir { 'd' } else { '-' });
    v.push(if mode & 0o400 != 0 { 'r' } else { '-' });
    v.push(if mode & 0o200 != 0 { 'w' } else { '-' });
    v.push(if mode & 0o100 != 0 { 'x' } else { '-' });
    v.push(if mode & 0o040 != 0 { 'r' } else { '-' });
    v.push(if mode & 0o020 != 0 { 'w' } else { '-' });
    v.push(if mode & 0o010 != 0 { 'x' } else { '-' });
    v.push(if mode & 0o004 != 0 { 'r' } else { '-' });
    v.push(if mode & 0o002 != 0 { 'w' } else { '-' });
    v.push(if mode & 0o001 != 0 { 'x' } else { '-' });
    proof {
        assert(v@ =~= perm_chars(mode, is_dir));
    }
    string_from_chars(&v)
}

/// The raw (not yet lowercased) extension of a file name: what follows the
/// last dot, provided that dot is not the leading character.
pub open spec fn raw_ext(name: Seq<char>) -> Option<Seq<char>>
    decreases name.len(),
{
    if name.len() == 0 {
        None
    } else if name.last() == '.' {
        if name.len() == 1 {
            None
        } else {
            Some(Seq::empty())
        }
    } else {
        match raw_ext(name.drop_last()) {
            Some(e) => Some(e.push(name.last())),
            None => None,
        }
    }
}

/// The extension field of an entry: absent for directories, otherwise the
/// lowercased raw extension.
pub open spec fn entry_extension(name: Seq<char>, is_dir: bool) -> Option<Seq<char>> {
    if is_dir {
        None
    } else {
        match raw_ext(name) {
            Some(e) => Some(lower_of(e)),
            None => None,
        }
    }
}

/// The view of an optional string.
pub open spec fn opt_str_view(o: Option<String>) -> Option<Seq<char>> {
    match o {
        Some(s) => Some(s@),
        None => None,
    }
}

proof fn lemma_raw_ext_at(name: Seq<char>, i: int)
    requires
        0 < i < name.len(),
        name[i] == '.',
        forall|k: int| i < k < name.len() ==> name[k] != '.',
    ensures
        raw_ext(name) == Some(name.skip(i + 1)),
    decreases name.len(),
{
    if i == name.len() - 1 {
        assert(name.last() == '.');
        assert(name.skip(i + 1) =~= Seq::<char>::empty());
    } else {
        assert(name.last() != '.');
        let prefix = name.drop_last();
        assert(forall|k: int| i < k < prefix.len() ==> prefix[k] != '.');
        lemma_raw_ext_at(prefix, i);
        assert(prefix.skip(i + 1).push(name.last()) =~= name.skip(i + 1));
    }
}

proof fn lemma_raw_ext_none(name: Seq<char>)
    requires
        forall|k: int| 0 < k < name.len() ==> name[k] != '.',
    ensures
        raw_ext(name) is None,
    decreases name.len(),
{
    if name.len() == 0 {
    } else if name.len() == 1 {
        if name.last() != '.' {
            lemma_raw_ext_none(name.drop_last());
        }
    } else {
        assert(name.last() != '.');
        let prefix = name.drop_last();
        assert(forall|k: int| 0 < k < prefix.len() ==> prefix[k] != '.');
        lemma_raw_ext_none(prefix);
    }
}

/// The lowercased extension of a file name, or `None` where the name has
/// none (no dot, or only a leading dot).
pub fn extension_of(name: &str) -> (r: Option<String>)
    ensures
        opt_str_view(r) == match raw_ext(name@) {
            Some(e) => Some(lower_of(e)),
            None => None::<Seq<char>>,
        },
{
    let n = name.unicode_len();
    let mut j: usize = n;
    while j > 0
        invariant
            j <= n,
            n == name@.len(),
            forall|k: int| j <= k < n ==> name@[k] != '.',
        decreases j,
    {
        let c = name.get_char(j - 1);
        if c == '.' {
            if j == 1 {
                proof {
                    lemma_raw_ext_none(name@);
                }
                return None;
            } else {
                let suffix = name.substring_char(j, n);
                let low = lower_str(suffix);
                proof {
                    lemma_raw_ext_at(name@, j - 1 as int);
                    assert(name@.skip(j as int) =~= name@.subrange(j as int, n as int));
                }
                return Some(low);
            }
        }
        j = j - 1;
    }
    proof {
        lemma_raw_ext_none(name@);
    }
    None
}

/// The index of the last `/` of a path, if any.
pub open spec fn last_slash(p: Seq<char>) -> Option<int>
    decreases p.len(),
{
    if p.len() == 0 {
        None
    } else if p.last() == '/' {
        Some(p.len() - 1)
    } else {
        last_slash(p.drop_last())
    }
}

/// The parent of a normalized path: what precedes the last separator.
/// The root `/` and the empty path have none; a bare relative name has the
/// empty parent.
pub open spec fn spec_parent_of(p: Seq<char>) -> Option<Seq<char>> {
    if p.len() == 0 {
        None
    } else {
        match last_slash(p) {
            None => Some(Seq::empty()),
            Some(i) => if p.len() == 1 {
                None
            } else if i == 0 {
                Some(seq!['/'])
            } else {
                Some(p.take(i))
            },
        }
    }
}

proof fn lemma_last_slash_at(p: Seq<char>, i: int)
    requires
        0 <= i < p.len(),
        p[i] == '/',
        forall|k: int| i < k < p.len() ==> p[k] != '/',
    ensures
        last_slash(p) == Some(i),
    decreases p.len(),
{
    if i == p.len() - 1 {
    } else {
        assert(p.last() != '/');
        let prefix = p.drop_last();
        assert(forall|k: int| i < k < prefix.len() ==> prefix[k] != '/');
        lemma_last_slash_at(prefix, i);
    }
}

proof fn lemma_last_slash_none(p: Seq<char>)
    requires
        forall|k: int| 0 <= k < p.len() ==> p[k] != '/',
    ensures
        last_slash(p) is None,
    decreases p.len(),
{
    if p.len() > 0 {
        assert(p.last() != '/');
        let prefix = p.drop_last();
        assert(forall|k: int| 0 <= k < prefix.len() ==> prefix[k] != '/');
        lemma_last_slash_none(prefix);
    }
}

/// The parent of a normalized path string, as `Path::parent` reads it.
pub fn parent_of(path: &str) -> (r: Option<String>)
    ensures
        opt_str_view(r) == spec_parent_of(path@),
{
    let n = path.unicode_len();
    if n == 0 {
        return None;
    }
    let mut j: usize = n;
    while j > 0
        invariant
            j <= n,
            n == path@.len(),
            forall|k: int| j <= k < n ==> path@[k] != '/',
        decreases j,
    {
        let c = path.get_char(j - 1);
        if c == '/' {
            proof {
                lemma_last_slash_at(path@, j - 1 as int);
            }
            if j == 1 {
                if n == 1 {
                    return None;
                }
                let root = String::from_str("/");
                proof {
                    reveal_strlit("/");
                    assert(root@ =~= seq!['/']);
                }
                return Some(root);
            } else {
                let prefix = path.substring_char(0, j - 1);
                proof {
                    assert(path@.subrange(0, j - 1 as int) =~= path@.take(j - 1 as int));
                }
                return Some(prefix.to_owned());
            }
        }
        j = j - 1;
    }
    proof {
        lemma_last_slash_none(path@);
    }
    Some(String::new())
}

/// The final component of a path: what follows the last separator, or the
/// whole path when it has none.
pub open spec fn spec_basename_of(p: Seq<char>) -> Seq<char> {
    match last_slash(p) {
        None => p,
        Some(i) => p.skip(i + 1),
    }
}

/// The final component of a path string.
pub fn basename_of(path: &str) -> (r: String)
    ensures
        r@ == spec_basename_of(path@),
{
    let n = path.unicode_len();
    let mut j: usize = n;
    while j > 0
        invariant
            j <= n,
            n == path@.len(),
            forall|k: int| j <= k < n ==> path@[k] != '/',
        decreases j,
    {
        let c = path.get_char(j - 1);
        if c == '/' {
            proof {
                lemma_last_slash_at(path@, j - 1 as int);
            }
            let tail = path.substring_char(j, n);
            proof {
                assert(path@.subrange(j as int, n as int) =~= path@.skip(j as int));
            }
            return tail.to_owned();
        }
        j = j - 1;
    }
    proof {
        lemma_last_slash_none(path@);
    }
    path.to_owned()
}

/// Build the uniform entry record from a name, a path and the plain
/// metadata that was read for it.
pub fn make_entry(name: String, path: String, meta: RawMetadata) -> (r: FileEntry)
    ensures
        r.name == name,
        r.path == path,
        r.is_dir == resolved_is_dir(meta),
        r.is_symlink == meta.is_symlink,
        r.size == resolved_size(meta),
        r.modified == meta.modified,
        r.owner == meta.owner,
        r.group == meta.group,
        r.permissions@ == perm_chars(meta.mode, resolved_is_dir(meta)),
        opt_str_view(r.extension) == entry_extension(name@, resolved_is_dir(meta)),
        r.hidden == starts_with_dot(name@),
        entry_wf(r),
{
    let is_dir = match meta.target {
        Some(t) => t.is_dir,
        None => false,
    };
    let size = if is_dir {
        0
    } else {
        match meta.target {
            Some(t) => t.len,
            None => meta.len,
        }
    };
    let permissions = mode_to_string(meta.mode, is_dir);
    let extension = if is_dir {
        None
    } else {
        extension_of(name.as_str())
    };
    let hidden = if name.as_str().is_empty() {
        false
    } else {
        name.as_str().get_char(0) == '.'
    };
    FileEntry {
        name,
        path,
        is_dir,
        is_symlink: meta.is_symlink,
        size,
        modified: meta.modified,
        permissions,
        owner: meta.owner,
        group: meta.group,
        extension,
        hidden,
    }
}

impl Clone for FileEntry {
    /// A clone is equal to the original, field for field.
    fn clone(&self) -> (res: Self)
        ensures
            res == *self,
    {
        FileEntry {
            name: self.name.clone(),
            path: self.path.clone(),
            is_dir: self.is_dir,
            is_symlink: self.is_symlink,
            size: self.size,
            modified: self.modified,
            permissions: self.permissions.clone(),
            owner: self.owner,
            group: self.group,
            extension: match &self.extension {
                Some(s) => Some(s.clone()),
                None => None,
            },
            hidden: self.hidden,
        }
    }
}

} // verus!
