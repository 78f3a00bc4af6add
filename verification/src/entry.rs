//! Directory entries: the raw child as the filesystem reports it, and the
//! classified record a listing returns.

use vstd::prelude::*;

verus! {

/// Whether an entry is a directory or anything else.
#[derive(Clone, Copy, Debug, PartialEq, Eq, Structural)]
pub enum EntryKind {
    Directory,
    File,
}

/// The ordering modes a listing can apply; a tagged set, open for extension.
#[derive(Clone, Copy, Debug)]
pub enum EOrderBy {
    Name,
}

/// A directory child as read from the filesystem: its full path, its file
/// name, and whether it is a directory.
#[derive(Clone, Debug)]
pub struct RawEntry {
    pub path: String,
    pub filename: String,
    pub is_dir: bool,
}

/// The mathematical value of a [`RawEntry`].
pub ghost struct RawEntryView {
    pub path: Seq<char>,
    pub filename: Seq<char>,
    pub is_dir: bool,
}

impl View for RawEntry {
    type V = RawEntryView;

    open spec fn view(&self) -> RawEntryView {
        RawEntryView { path: self.path@, filename: self.filename@, is_dir: self.is_dir }
    }
}

/// One classified entry of a listing. `name` is the display name, today
/// always the file name; `icon` is reserved and never set.
#[derive(Clone, Debug)]
pub struct FileInfoData {
    pub path: String,
    pub filename: String,
    pub name: String,
    pub ext: Option<String>,
    pub icon: Option<String>,
    pub kind: EntryKind,
}

/// The mathematical value of a [`FileInfoData`].
pub ghost struct FileInfoView {
    pub path: Seq<char>,
    pub filename: Seq<char>,
    pub name: Seq<char>,
    pub ext: Option<Seq<char>>,
    pub icon: Option<Seq<char>>,
    pub kind: EntryKind,
}

impl View for FileInfoData {
    type V = FileInfoView;

    open spec fn view(&self) -> FileInfoView {
        FileInfoView {
            path: self.path@,
            filename: self.filename@,
            name: self.name@,
            ext: self.ext.deep_view(),
            icon: self.icon.deep_view(),
            kind: self.kind,
        }
    }
}

impl EntryKind {
    /// The label a caller serializes this kind as.
    pub open spec fn label_view(self) -> Seq<char> {
        match self {
            EntryKind::Directory => "directory"@,
            EntryKind::File => "file"@,
        }
    }

    /// Returns `"directory"` or `"file"`.
    pub fn label(&self) -> (r: &'static str)
        ensures
            r@ == self.label_view(),
    {
        match self {
            EntryKind::Directory => "directory",
            EntryKind::File => "file",
        }
    }
}

/// A name is hidden when it starts with a dot.
pub open spec fn hidden(name: Seq<char>) -> bool {
    name.len() > 0 && name[0] == '.'
}

/// The index of the last dot in `name`, or -1 when there is none.
pub open spec fn last_dot(name: Seq<char>) -> int
    decreases name.len(),
{
    if name.len() == 0 {
        -1
    } else if name[name.len() - 1] == '.' {
        name.len() - 1
    } else {
        last_dot(name.drop_last())
    }
}

/// The extension of a file name: what follows the last dot, unless that dot
/// leads the name or there is none.
pub open spec fn ext_of(name: Seq<char>) -> Option<Seq<char>> {
    if last_dot(name) >= 1 {
        Some(name.subrange(last_dot(name) + 1, name.len() as int))
    } else {
        None
    }
}

/// The classified record a listing builds for one raw child.
pub open spec fn info_of(e: RawEntryView) -> FileInfoView {
    FileInfoView {
        path: e.path,
        filename: e.filename,
        name: e.filename,
        ext: ext_of(e.filename),
        icon: None,
        kind: if e.is_dir {
            EntryKind::Directory
        } else {
            EntryKind::File
        },
    }
}

proof fn lemma_last_dot_found(s: Seq<char>, d: int)
    requires
        0 <= d < s.len(),
        s[d] == '.',
        forall|k: int| d < k < s.len() ==> s[k] != '.',
    ensures
        last_dot(s) == d,
    decreases s.len(),
{
    if d < s.len() - 1 {
        assert(s[s.len() - 1] != '.');
        assert(forall|k: int| d < k < s.drop_last().len() ==> s.drop_last()[k] != '.');
        lemma_last_dot_found(s.drop_last(), d);
    }
}

proof fn lemma_last_dot_none(s: Seq<char>)
    requires
        forall|k: int| 0 <= k < s.len() ==> s[k] != '.',
    ensures
        last_dot(s) == -1,
    decreases s.len(),
{
    if s.len() > 0 {
        assert(forall|k: int| 0 <= k < s.drop_last().len() ==> s.drop_last()[k] != '.');
        lemma_last_dot_none(s.drop_last());
    }
}

/// True when the name starts with a dot.
pub fn is_hidden_name(name: &str) -> (r: bool)
    ensures
        r == hidden(name@),
{
    if name.unicode_len() == 0 {
        false
    } else {
        let c = name.get_char(0);
        proof {
            vstd::utf8::char_u32_cast(c, c as u32);
            vstd::utf8::char_u32_cast('.', '.' as u32);
        }
        (c as u32) == ('.' as u32)
    }
}

/// Extracts the extension of a file name, taking only what follows the last
/// dot and treating a name whose single dot leads it as having none.
pub fn extension_of(name: &str) -> (r: Option<String>)
    ensures
        r.deep_view() == ext_of(name@),
{
    let n = name.unicode_len();
    let mut j: usize = n;
    while j > 0
        invariant
            j <= n,
            n == name@.len(),
            forall|k: int| j <= k < n ==> name@[k] != '.',
        decreases j,
    {
        let c = name.get_char(j - 1);
        proof {
            vstd::utf8::char_u32_cast(c, c as u32);
            vstd::utf8::char_u32_cast('.', '.' as u32);
        }
        if (c as u32) == ('.' as u32) {
            proof {
                lemma_last_dot_found(name@, j - 1);
            }
            if j >= 2 {
                let sub = name.substring_char(j, n);
                return Some(sub.to_owned());
            } else {
                return None;
            }
        }
        j = j - 1;
    }
    proof {
        lemma_last_dot_none(name@);
    }
    None
}

/// Builds the classified record for one raw child.
pub fn make_info(e: &RawEntry) -> (r: FileInfoData)
    ensures
        r@ == info_of(e@),
{
    let ext = extension_of(e.filename.as_str());
    let kind = if e.is_dir {
        EntryKind::Directory
    } else {
        EntryKind::File
    };
    let r = FileInfoData {
        path: e.path.clone(),
        filename: e.filename.clone(),
        name: e.filename.clone(),
        ext,
        icon: None,
        kind,
    };
    proof {
        assert(r@.ext == ext_of(e@.filename));
    }
    r
}

} // verus!
