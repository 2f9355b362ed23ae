use vstd::prelude::*;
use crate::attributes::{AttributeGraph, AttributeView, attributes_view, enabled_flag};
use crate::keyed::{key_lookup, key_upsert, key_remove, key_position, has_key, first_key, distinct_keys,
    lemma_key_position, lemma_key_upsert, lemma_key_remove};
use crate::text::strip_prefix;

verus! {

/// A file that the file editor shows.
#[derive(Debug, Clone, Default)]
pub struct FileEntry {
    pub file_name: String,
}

/// Error of a file entry's runtime.
#[derive(Debug, Clone, Copy, Default)]
pub struct FileEntryRuntimeError {}

impl FileEntry {
    /// Describes the entry, as its `Display` writes it: `file_name: {name}`.
    pub fn describe(&self) -> (s: String)
        ensures
            s@ == "file_name: "@ + self.file_name@,
    {
        let mut s = "file_name: ".to_owned();
        s.append(self.file_name.as_str());
        s
    }
}

/// Editor of the files that sections name, by the id of the section's entity.
#[derive(Debug, Clone, Default)]
pub struct FileEditor {
    files: Vec<(u32, FileEntry)>,
}

pub open spec fn files_view(v: Seq<(u32, FileEntry)>) -> Seq<(u32, Seq<char>)> {
    v.map_values(|p: (u32, FileEntry)| (p.0, p.1.file_name@))
}

impl View for FileEditor {
    type V = Seq<(u32, Seq<char>)>;

    closed spec fn view(&self) -> Seq<(u32, Seq<char>)> {
        files_view(self.files@)
    }
}

/// The prefix of the attribute that names a section's file.
pub open spec fn file_name_prefix() -> Seq<char> {
    "file::name::"@
}

/// The file that attributes name: what follows `file::name::` in the name of
/// the last attribute whose name starts with it.
pub open spec fn named_file(attrs: Seq<AttributeView>) -> Option<Seq<char>>
    decreases attrs.len(),
{
    if attrs.len() == 0 {
        None
    } else if file_name_prefix().is_prefix_of(attrs.last().name) {
        Some(attrs.last().name.skip(file_name_prefix().len() as int))
    } else {
        named_file(attrs.drop_last())
    }
}

/// The files after the editor looked at a section: a section that enables the
/// file editor and names a file shows it, one that disables it shows none,
/// and one that says nothing keeps what it had.
pub open spec fn files_after(files: Seq<(u32, Seq<char>)>, id: u32, attrs: Seq<AttributeView>) -> Seq<(u32, Seq<char>)> {
    match enabled_flag(attrs, "enable file editor"@) {
        Some(true) => match named_file(attrs) {
            Some(name) => key_upsert(files, id, name),
            None => files,
        },
        Some(false) => key_remove(files, id),
        None => files,
    }
}

/// Returns the file that attributes name.
pub fn file_name_in(attrs: &AttributeGraph) -> (r: Option<String>)
    ensures
        r matches Some(t) ==> named_file(attrs@.attributes) == Some(t@),
        r is None ==> named_file(attrs@.attributes) is None,
{
    let list = attrs.attributes();
    let ghost av = attributes_view(list@);
    let mut found: Option<String> = None;
    let mut i: usize = 0;
    while i < list.len()
        invariant
            i <= list@.len(),
            av == attributes_view(list@),
            av == attrs@.attributes,
            found matches Some(t) ==> named_file(av.subrange(0, i as int)) == Some(t@),
            found is None ==> named_file(av.subrange(0, i as int)) is None,
        decreases list@.len() - i,
    {
        assert(av.subrange(0, i + 1 as int).drop_last() =~= av.subrange(0, i as int));
        assert(av.subrange(0, i + 1 as int).last() == av[i as int]);
        match strip_prefix(list[i].name.as_str(), "file::name::") {
            Some(rest) => {
                found = Some(rest);
            },
            None => {},
        }
        proof {
            reveal_strlit("file::name::");
        }
        i = i + 1;
    }
    assert(av.subrange(0, list@.len() as int) =~= av);
    found
}

impl FileEditor {
    /// Creates an editor showing no files.
    pub fn new() -> (f: FileEditor)
        ensures
            f@ == Seq::<(u32, Seq<char>)>::empty(),
    {
        let f = FileEditor { files: Vec::new() };
        assert(f@ =~= Seq::<(u32, Seq<char>)>::empty());
        f
    }

    /// The files shown, by the id of the section's entity.
    pub fn files(&self) -> (f: &Vec<(u32, FileEntry)>)
        ensures
            files_view(f@) == self@,
    {
        &self.files
    }

    fn position(&self, id: u32) -> (r: Option<usize>)
        ensures
            r is Some <==> has_key(self@, id),
            r matches Some(i) ==> i as int == key_position(self@, id) && i < self.files@.len(),
    {
        let ghost fs = self@;
        proof {
            lemma_key_position(fs, id);
        }
        let mut i: usize = 0;
        while i < self.files.len()
            invariant
                i <= self.files@.len(),
                fs == files_view(self.files@),
                forall|j: int| 0 <= j < i ==> #[trigger] fs[j].0 != id,
            decreases self.files@.len() - i,
        {
            if self.files[i].0 == id {
                assert(first_key(fs, id, i as int));
                return Some(i);
            }
            i = i + 1;
        }
        None
    }

    /// One run of the file editor for the section of an entity.
    pub fn update(&mut self, id: u32, attrs: &AttributeGraph)
        ensures
            final(self)@ == files_after(old(self)@, id, attrs@.attributes),
    {
        let ghost fs = self@;
        match attrs.is_enabled("enable file editor") {
            Some(true) => {
                match file_name_in(attrs) {
                    Some(file_name) => {
                        let ghost name = file_name@;
                        match self.position(id) {
                            Some(p) => {
                                self.files.set(p, (id, FileEntry { file_name }));
                            },
                            None => {
                                self.files.push((id, FileEntry { file_name }));
                            },
                        }
                        assert(self@ =~= key_upsert(fs, id, name));
                    },
                    None => {},
                }
            },
            Some(false) => {
                match self.position(id) {
                    Some(p) => {
                        self.files.remove(p);
                        assert(self@ =~= fs.remove(p as int));
                    },
                    None => {},
                }
            },
            None => {},
        }
    }
}

/// Each section has at most one file shown: the editor never shows two files
/// for one entity.
pub proof fn law_one_file_per_section(files: Seq<(u32, Seq<char>)>, id: u32, attrs: Seq<AttributeView>)
    requires
        distinct_keys(files),
    ensures
        distinct_keys(files_after(files, id, attrs)),
{
    lemma_key_upsert(files, id, named_file(attrs).unwrap_or(Seq::empty()));
    lemma_key_remove(files, id);
}

/// A section that disables the file editor shows no file afterwards.
pub proof fn law_disable_hides_file(files: Seq<(u32, Seq<char>)>, id: u32, attrs: Seq<AttributeView>)
    requires
        distinct_keys(files),
        enabled_flag(attrs, "enable file editor"@) == Some(false),
    ensures
        key_lookup(files_after(files, id, attrs), id) is None,
{
    lemma_key_remove(files, id);
}

/// A section that enables the file editor and names a file shows that file.
pub proof fn law_enable_shows_file(files: Seq<(u32, Seq<char>)>, id: u32, attrs: Seq<AttributeView>)
    requires
        enabled_flag(attrs, "enable file editor"@) == Some(true),
        named_file(attrs) is Some,
    ensures
        key_lookup(files_after(files, id, attrs), id) == named_file(attrs),
{
    lemma_key_upsert(files, id, named_file(attrs).unwrap());
}

} // verus!
