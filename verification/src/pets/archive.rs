//! Bundles: zip archives that hold many pets, a directory each.

use vstd::prelude::*;

use crate::duplicate::Duplicate;
use crate::strmap::StrMap;
use crate::text::{all_texts_are_among, only_texts, texts_among};

verus! {

// ---------------------------------------------------------------------------------------------
// Zip archives
// ---------------------------------------------------------------------------------------------

/// A zip archive, opaque.
#[verifier::external_type_specification]
#[verifier::external_body]
#[verifier::reject_recursive_types(R)]
pub struct ExZipArchive<R>(zip::ZipArchive<R>);

/// A reader of bytes in memory, opaque.
#[verifier::external_type_specification]
#[verifier::external_body]
#[verifier::reject_recursive_types(T)]
pub struct ExCursor<T>(std::io::Cursor<T>);

/// The bytes that an archive was opened on.
pub uninterp spec fn archive_source(
    archive: zip::ZipArchive<std::io::Cursor<Vec<u8>>>,
) -> Seq<u8>;

/// Why the bytes cannot be opened as a zip archive, if they cannot.
pub uninterp spec fn archive_fault(bytes: Seq<u8>) -> Option<Seq<char>>;

/// How many entries the archive has.
pub uninterp spec fn archive_count(bytes: Seq<u8>) -> nat;

/// Why an entry of the archive cannot be looked at, if it cannot.
pub uninterp spec fn entry_fault(bytes: Seq<u8>, i: int) -> Option<Seq<char>>;

/// The name of an entry.
pub uninterp spec fn entry_name(bytes: Seq<u8>, i: int) -> Seq<char>;

/// The entry is a file: neither a directory nor a symbolic link.
pub uninterp spec fn entry_is_file(bytes: Seq<u8>, i: int) -> bool;

/// The contents of an entry, or why they cannot be read.
pub uninterp spec fn entry_data(bytes: Seq<u8>, i: int) -> Result<Seq<u8>, Seq<char>>;

/// What an archive says of an entry.
pub struct EntryHead {
    pub name: String,
    pub is_file: bool,
    /// The parts of the path of the entry, where the path stays within the archive; a part that
    /// is not a text is `None`.
    pub path: Option<Vec<Option<String>>>,
}

/// What an [`EntryHead`] stands for.
#[verifier::ext_equal]
pub struct EntryHeadModel {
    pub name: Seq<char>,
    pub is_file: bool,
    pub path: Option<Seq<Option<Seq<char>>>>,
}

impl DeepView for EntryHead {
    type V = EntryHeadModel;

    open spec fn deep_view(&self) -> EntryHeadModel {
        EntryHeadModel {
            name: self.name@,
            is_file: self.is_file,
            path: self.path.deep_view(),
        }
    }
}

/// How deep a path leads: a parent part leads up, the part for the directory itself nowhere,
/// and any other part down.
pub open spec fn depth(parts: Seq<Option<Seq<char>>>) -> int
    decreases parts.len(),
{
    if parts.len() == 0 {
        0
    } else {
        depth(parts.drop_last()) + if parts.last() == Some(".."@) {
            -1int
        } else if parts.last() == Some("."@) {
            0
        } else {
            1
        }
    }
}

/// The path never leads out of the directory that it starts in.
pub open spec fn stays_inside(parts: Seq<Option<Seq<char>>>) -> bool {
    forall|n: int| 0 <= n <= parts.len() ==> depth(#[trigger] parts.take(n)) >= 0
}

/// A name, divided at its slashes.
pub open spec fn segments(name: Seq<char>) -> Seq<Seq<char>>
    decreases name.len(),
{
    if name.len() == 0 {
        seq![seq![]]
    } else {
        let before = segments(name.drop_last());
        if name.last() == '/' {
            before.push(seq![])
        } else {
            before.drop_last().push(before.last().push(name.last()))
        }
    }
}

/// The segments that are parts of a path: empty ones are none, nor is a `.` but at the beginning.
pub open spec fn kept_segments(segs: Seq<Seq<char>>) -> Seq<Seq<char>>
    decreases segs.len(),
{
    if segs.len() == 0 {
        seq![]
    } else {
        let before = kept_segments(segs.drop_last());
        if segs.last().len() == 0 || (segs.last() == "."@ && segs.len() > 1) {
            before
        } else {
            before.push(segs.last())
        }
    }
}

/// The parts of the path that a name stands for where a slash, and nothing else, separates them.
pub open spec fn parts_of(name: Seq<char>) -> Seq<Option<Seq<char>>> {
    kept_segments(segments(name)).map_values(|s: Seq<char>| Some(s))
}

/// A name begins at the root of a file system or leads out of the directory that it starts in.
pub open spec fn leads_out(name: Seq<char>) -> bool {
    ||| name.len() > 0 && name[0] == '/'
    ||| !stays_inside(parts_of(name))
}

/// The path that a name stands for where a slash, and nothing else, separates its parts; none,
/// where it leads out.
pub open spec fn slash_path(name: Seq<char>) -> Option<Seq<Option<Seq<char>>>> {
    if leads_out(name) {
        None
    } else {
        Some(parts_of(name))
    }
}

/// A name with a slash for each backslash.
pub open spec fn with_slashes(name: Seq<char>) -> Seq<char> {
    name.map_values(
        |c: char|
            if c == '\\' {
                '/'
            } else {
                c
            },
    )
}

/// A name may begin with a drive: its second character is a colon.
pub open spec fn may_name_drive(name: Seq<char>) -> bool {
    name.len() >= 2 && name[1] == ':'
}

/// A path may be that of an entry with this name. A name with a NUL has none. Any other name is
/// divided at its slashes, or, on a system that separates by backslashes too, at both; on a
/// system that has drives, a name that begins with one has none.
pub open spec fn is_path_of(name: Seq<char>, path: Option<Seq<Option<Seq<char>>>>) -> bool {
    if name.contains('\0') {
        path is None
    } else {
        ||| path == slash_path(name)
        ||| path == slash_path(with_slashes(name))
        ||| path is None && may_name_drive(name)
    }
}

/// A name that every system divides alike: it has no backslash and begins with no drive.
pub open spec fn is_portable_name(name: Seq<char>) -> bool {
    !name.contains('\\') && !may_name_drive(name)
}

/// `zip::ZipArchive::new` on bytes in memory: opens them as an archive, or tells why it cannot;
/// which of the two depends on the bytes alone.
#[verifier::external_body]
fn open_archive(bytes: Vec<u8>) -> (r: Result<zip::ZipArchive<std::io::Cursor<Vec<u8>>>, String>)
    ensures
        match r {
            Ok(archive) => archive_fault(bytes@) is None && archive_source(archive) == bytes@,
            Err(e) => archive_fault(bytes@) == Some(e@),
        },
{
    zip::ZipArchive::new(std::io::Cursor::new(bytes)).map_err(|e| e.to_string())
}

/// `zip::ZipArchive::len`: the number of entries, which depends on the bytes alone.
#[verifier::external_body]
fn entry_count(archive: &zip::ZipArchive<std::io::Cursor<Vec<u8>>>) -> (r: usize)
    ensures
        r == archive_count(archive_source(*archive)),
{
    archive.len()
}

/// `zip::ZipArchive::by_index`, with `name`, `is_file` and `enclosed_name` of the entry and the
/// `Path::components` of the latter: what the archive says of an entry, or why it cannot be
/// looked at. Whether it can, its name, and whether it is a file depend on the bytes alone. The
/// parts of its path are those that the name is divided into at its separators, without empty
/// ones and without a `.` but at the beginning; there is no path where the name has a NUL, is
/// absolute or leads out of the archive. Which characters separate is the system's business: a
/// slash does, a backslash may, and a colon after the first character may set off a drive, which
/// leaves the name without a path.
#[verifier::external_body]
fn entry_head(
    archive: &mut zip::ZipArchive<std::io::Cursor<Vec<u8>>>,
    i: usize,
) -> (r: Result<EntryHead, String>)
    ensures
        archive_source(*final(archive)) == archive_source(*old(archive)),
        match r {
            Ok(head) => {
                &&& entry_fault(archive_source(*old(archive)), i as int) is None
                &&& head.name@ == entry_name(archive_source(*old(archive)), i as int)
                &&& head.is_file == entry_is_file(archive_source(*old(archive)), i as int)
                &&& is_path_of(head.name@, head.deep_view().path)
            },
            Err(e) => entry_fault(archive_source(*old(archive)), i as int) == Some(e@),
        },
{
    let entry = archive.by_index(i).map_err(|e| e.to_string())?;
    let path = entry.enclosed_name().map(|name| {
        let parts = name.components().map(|c| c.as_os_str().to_str().map(|s| s.to_string()));
        parts.collect::<Vec<Option<String>>>()
    });
    Ok(EntryHead { name: entry.name().to_string(), is_file: entry.is_file(), path })
}

/// `zip::ZipArchive::by_index`, with `Read::read_to_end` of the entry: the contents of an entry,
/// or why they cannot be read; either depends on the bytes alone.
#[verifier::external_body]
fn entry_contents(
    archive: &mut zip::ZipArchive<std::io::Cursor<Vec<u8>>>,
    i: usize,
) -> (r: Result<Vec<u8>, String>)
    ensures
        archive_source(*final(archive)) == archive_source(*old(archive)),
        match r {
            Ok(data) => entry_data(archive_source(*old(archive)), i as int) == Ok::<
                Seq<u8>,
                Seq<char>,
            >(data@),
            Err(e) => entry_data(archive_source(*old(archive)), i as int) == Err::<
                Seq<u8>,
                Seq<char>,
            >(e@),
        },
{
    let mut entry = archive.by_index(i).map_err(|e| e.to_string())?;
    let mut data: Vec<u8> = Vec::new();
    std::io::Read::read_to_end(&mut entry, &mut data).map_err(|e| e.to_string())?;
    Ok(data)
}

// ---------------------------------------------------------------------------------------------
// The files of a bundle
// ---------------------------------------------------------------------------------------------

/// A file of a bundle, and the pet it belongs to.
pub struct BundleFile {
    pub slug: String,
    pub name: String,
    pub bytes: Vec<u8>,
}

/// What a [`BundleFile`] stands for.
#[verifier::ext_equal]
pub struct BundleFileModel {
    pub slug: Seq<char>,
    pub name: Seq<char>,
    pub bytes: Seq<u8>,
}

impl DeepView for BundleFile {
    type V = BundleFileModel;

    open spec fn deep_view(&self) -> BundleFileModel {
        BundleFileModel { slug: self.slug@, name: self.name@, bytes: self.bytes.deep_view() }
    }
}

/// The pet that an entry belongs to, and the name of its file: the last two parts of its path.
/// An entry that is not a file, or whose path is too short, belongs to none.
pub open spec fn placed(head: EntryHeadModel) -> Option<(Seq<char>, Seq<char>)> {
    match head.path {
        Some(path) => {
            let parts = texts_among(path);
            if head.is_file && parts.len() >= 2 {
                Some((parts[parts.len() - 2], parts[parts.len() - 1]))
            } else {
                None
            }
        },
        None => None,
    }
}

/// The pet that an entry belongs to, and the name of its file.
pub fn place_entry(head: &EntryHead) -> (r: Option<(String, String)>)
    ensures
        r.deep_view() == placed(head.deep_view()),
{
    if !head.is_file {
        return None;
    }
    match &head.path {
        None => None,
        Some(path) => {
            let parts = only_texts(path);
            let n = parts.len();
            if n < 2 {
                None
            } else {
                Some((parts[n - 2].duplicate(), parts[n - 1].duplicate()))
            }
        },
    }
}

/// There is a head for each entry of the archive; it has the name of the entry, tells whether
/// the entry is a file, and has a path that the entry may have.
pub open spec fn heads_agree(bytes: Seq<u8>, heads: Seq<EntryHeadModel>) -> bool {
    &&& heads.len() == archive_count(bytes)
    &&& forall|i: int|
        #![trigger heads[i]]
        0 <= i < heads.len() ==> {
            &&& heads[i].name == entry_name(bytes, i)
            &&& heads[i].is_file == entry_is_file(bytes, i)
            &&& is_path_of(heads[i].name, heads[i].path)
        }
}

/// Heads that agree with an archive, for entries that are not looked at.
spec fn unseen_heads(bytes: Seq<u8>) -> Seq<EntryHeadModel> {
    Seq::new(
        archive_count(bytes),
        |i: int|
            EntryHeadModel {
                name: entry_name(bytes, i),
                is_file: entry_is_file(bytes, i),
                path: if entry_name(bytes, i).contains('\0') {
                    None
                } else {
                    slash_path(entry_name(bytes, i))
                },
            },
    )
}

/// The files among the first `n` entries of an archive, in order, or why they cannot be read:
/// the first fault counts. An entry that belongs to no pet is not read.
pub open spec fn files_of(
    bytes: Seq<u8>,
    heads: Seq<EntryHeadModel>,
    n: nat,
) -> Result<Seq<BundleFileModel>, Seq<char>>
    decreases n,
{
    if n == 0 {
        Ok(seq![])
    } else {
        let i = n - 1;
        match files_of(bytes, heads, i as nat) {
            Err(e) => Err(e),
            Ok(files) => match entry_fault(bytes, i) {
                Some(e) => Err(e),
                None => match placed(heads[i]) {
                    None => Ok(files),
                    Some((slug, name)) => match entry_data(bytes, i) {
                        Err(e) => Err(e),
                        Ok(data) => Ok(files.push(BundleFileModel { slug, name, bytes: data })),
                    },
                },
            },
        }
    }
}

/// The files of a bundle that belong to pets, or why the bundle cannot be read.
pub open spec fn bundle_outcome(
    bytes: Seq<u8>,
    heads: Seq<EntryHeadModel>,
) -> Result<Seq<BundleFileModel>, Seq<char>> {
    match archive_fault(bytes) {
        Some(e) => Err(e),
        None => files_of(bytes, heads, archive_count(bytes)),
    }
}

/// The model of what reading a bundle gives.
pub open spec fn bundle_model(r: Result<Vec<BundleFile>, String>) -> Result<
    Seq<BundleFileModel>,
    Seq<char>,
> {
    match r {
        Ok(files) => Ok(files.deep_view()),
        Err(e) => Err(e@),
    }
}

/// A fault among the first entries is the fault of the whole.
proof fn lemma_fault_stays(
    bytes: Seq<u8>,
    heads: Seq<EntryHeadModel>,
    n: nat,
    m: nat,
)
    requires
        n <= m,
        files_of(bytes, heads, n) is Err,
    ensures
        files_of(bytes, heads, m) == files_of(bytes, heads, n),
    decreases m,
{
    if n < m {
        lemma_fault_stays(bytes, heads, n, (m - 1) as nat);
    }
}

/// What a later head is makes no difference to the first entries.
proof fn lemma_later_head(
    bytes: Seq<u8>,
    heads: Seq<EntryHeadModel>,
    i: int,
    head: EntryHeadModel,
    n: nat,
)
    requires
        n <= i < heads.len(),
    ensures
        files_of(bytes, heads.update(i, head), n) == files_of(bytes, heads, n),
    decreases n,
{
    if n > 0 {
        lemma_later_head(bytes, heads, i, head, (n - 1) as nat);
    }
}

/// Reads the files of a bundle that belong to pets, in the order of the archive. The first
/// fault of the archive ends the reading.
pub fn read_bundle(bytes: Vec<u8>) -> (r: Result<Vec<BundleFile>, String>)
    ensures
        exists|heads: Seq<EntryHeadModel>|
            #![trigger bundle_outcome(bytes@, heads)]
            heads_agree(bytes@, heads) && bundle_model(r) == bundle_outcome(bytes@, heads),
{
    let ghost source = bytes@;
    let ghost mut heads = unseen_heads(source);
    let mut archive = match open_archive(bytes) {
        Ok(archive) => archive,
        Err(e) => {
            assert(bundle_outcome(source, heads) == Err::<Seq<BundleFileModel>, Seq<char>>(e@));
            return Err(e);
        },
    };
    let n = entry_count(&archive);
    let mut files: Vec<BundleFile> = Vec::new();
    let mut i: usize = 0;
    assert(files.deep_view() =~= seq![]);
    while i < n
        invariant
            source == bytes@,
            archive_source(archive) == source,
            archive_fault(source) is None,
            n == archive_count(source),
            i <= n,
            heads_agree(source, heads),
            files_of(source, heads, i as nat) == Ok::<Seq<BundleFileModel>, Seq<char>>(
                files.deep_view(),
            ),
        decreases n - i,
    {
        let head = match entry_head(&mut archive, i) {
            Ok(head) => head,
            Err(e) => {
                proof {
                    let fault = Err::<Seq<BundleFileModel>, Seq<char>>(e@);
                    assert(files_of(source, heads, (i + 1) as nat) == fault);
                    lemma_fault_stays(source, heads, (i + 1) as nat, n as nat);
                    assert(bundle_outcome(source, heads) == fault);
                }
                return Err(e);
            },
        };
        proof {
            lemma_later_head(source, heads, i as int, head.deep_view(), i as nat);
            heads = heads.update(i as int, head.deep_view());
        }
        match place_entry(&head) {
            None => {},
            Some((slug, name)) => {
                match entry_contents(&mut archive, i) {
                    Err(e) => {
                        proof {
                            let fault = Err::<Seq<BundleFileModel>, Seq<char>>(e@);
                            assert(files_of(source, heads, (i + 1) as nat) == fault);
                            lemma_fault_stays(source, heads, (i + 1) as nat, n as nat);
                            assert(bundle_outcome(source, heads) == fault);
                        }
                        return Err(e);
                    },
                    Ok(data) => {
                        let ghost done = files.deep_view();
                        let file = BundleFile { slug, name, bytes: data };
                        proof {
                            assert(file.bytes.deep_view() =~= data@);
                        }
                        files.push(file);
                        assert(files.deep_view() =~= done.push(file.deep_view()));
                    },
                }
            },
        }
        i += 1;
    }
    proof {
        assert(bundle_outcome(source, heads) == Ok::<Seq<BundleFileModel>, Seq<char>>(
            files.deep_view(),
        ));
    }
    Ok(files)
}

// ---------------------------------------------------------------------------------------------
// By pet
// ---------------------------------------------------------------------------------------------

/// The files of one pet, in order: their names and contents.
pub open spec fn files_for(files: Seq<BundleFileModel>, slug: Seq<char>) -> Seq<
    (Seq<char>, Seq<u8>),
>
    decreases files.len(),
{
    if files.len() == 0 {
        seq![]
    } else {
        let rest = files_for(files.drop_last(), slug);
        if files.last().slug == slug {
            rest.push((files.last().name, files.last().bytes))
        } else {
            rest
        }
    }
}

/// The files of a bundle by pet: each pet that has files, with its files in order.
pub open spec fn by_pet(files: Seq<BundleFileModel>) -> Map<
    Seq<char>,
    Seq<(Seq<char>, Seq<u8>)>,
> {
    Map::new(
        |slug: Seq<char>| files_for(files, slug).len() > 0,
        |slug: Seq<char>| files_for(files, slug),
    )
}

/// Sorts the files of a bundle by the pets they belong to.
pub fn group_files(files: Vec<BundleFile>) -> (r: StrMap<Vec<(String, Vec<u8>)>>)
    ensures
        r.deep_view() == by_pet(files.deep_view()),
{
    let n = files.len();
    let ghost all = files.deep_view();
    let mut files = files;
    let mut r: StrMap<Vec<(String, Vec<u8>)>> = StrMap::new();
    assert(r.deep_view() =~= by_pet(all.take(0)));
    assert(all.skip(0) =~= all);
    let mut i: usize = 0;
    while i < n
        invariant
            all.len() == n,
            i <= n,
            files.deep_view() == all.skip(i as int),
            r.deep_view() == by_pet(all.take(i as int)),
        decreases n - i,
    {
        let ghost before = all.take(i as int);
        let ghost after = all.take(i + 1);
        proof {
            assert(after.drop_last() =~= before);
            assert(after.last() == all[i as int]);
            assert(all.skip(i as int)[0] == all[i as int]);
            assert(all.skip(i as int).drop_first() =~= all.skip(i + 1));
        }
        let ghost left = files.deep_view();
        let file = files.remove(0);
        assert(files.deep_view() =~= left.drop_first());
        let BundleFile { slug, name, bytes } = file;
        let mut list = match r.remove(slug.as_str()) {
            Some(list) => list,
            None => Vec::new(),
        };
        let ghost had = list.deep_view();
        assert(had =~= files_for(before, slug@));
        let pair = (name, bytes);
        list.push(pair);
        assert(list.deep_view() =~= had.push(pair.deep_view()));
        r.insert(slug, list);
        assert(r.deep_view() =~= by_pet(after));
        i += 1;
    }
    assert(all.take(n as int) =~= all);
    r
}

// ---------------------------------------------------------------------------------------------
// Laws
// ---------------------------------------------------------------------------------------------

/// No file of a bundle gets lost, and none is made up: a pet has a file exactly when the bundle
/// has a file of that pet, with that name and those contents.
pub proof fn grouping_keeps_every_file(
    files: Seq<BundleFileModel>,
    slug: Seq<char>,
    name: Seq<char>,
    bytes: Seq<u8>,
)
    ensures
        files_for(files, slug).contains((name, bytes)) <==> files.contains(
            BundleFileModel { slug, name, bytes },
        ),
    decreases files.len(),
{
    if files.len() > 0 {
        let init = files.drop_last();
        let last = files.last();
        let f = BundleFileModel { slug, name, bytes };
        grouping_keeps_every_file(init, slug, name, bytes);
        let before = files_for(init, slug);
        let all = files_for(files, slug);
        if all.contains((name, bytes)) {
            let i = choose|i: int| 0 <= i < all.len() && all[i] == (name, bytes);
            if i < before.len() {
                assert(before[i] == (name, bytes));
                let j = choose|j: int| 0 <= j < init.len() && init[j] == f;
                assert(files[j] == f);
            } else {
                assert(last =~= f);
                assert(files[files.len() - 1] == f);
            }
        }
        if files.contains(f) {
            let j = choose|j: int| 0 <= j < files.len() && files[j] == f;
            if j < init.len() {
                assert(init[j] == f);
                let i = choose|i: int| 0 <= i < before.len() && before[i] == (name, bytes);
                assert(all[i] == (name, bytes));
            } else {
                assert(all[before.len() as int] == (name, bytes));
            }
        }
    }
}

/// Every pet of a grouped bundle has a file.
pub proof fn grouped_pets_have_files(files: Seq<BundleFileModel>, slug: Seq<char>)
    requires
        by_pet(files).contains_key(slug),
    ensures
        by_pet(files)[slug].len() > 0,
{
}

/// An entry has no path that leads out of the archive.
pub proof fn paths_stay_inside(name: Seq<char>, path: Option<Seq<Option<Seq<char>>>>)
    requires
        is_path_of(name, path),
    ensures
        path matches Some(parts) ==> stays_inside(parts),
{
}

/// Every system finds the same path for a portable name.
proof fn lemma_portable_path(name: Seq<char>, path: Option<Seq<Option<Seq<char>>>>)
    requires
        is_path_of(name, path),
        is_portable_name(name),
    ensures
        path == if name.contains('\0') {
            None
        } else {
            slash_path(name)
        },
{
    assert forall|i: int| 0 <= i < name.len() implies with_slashes(name)[i] == name[i] by {
        assert(name.contains(name[i]));
    }
    assert(with_slashes(name) =~= name);
}

/// A file with a portable name belongs to the pet that the directory next to it names. It belongs
/// to none where it stands in no directory, where its name has a NUL, or where its name leads out
/// of the archive.
pub proof fn portable_file_is_placed(head: EntryHeadModel)
    requires
        is_path_of(head.name, head.path),
        is_portable_name(head.name),
        head.is_file,
    ensures
        ({
            let parts = kept_segments(segments(head.name));
            placed(head) == if parts.len() >= 2 && !head.name.contains('\0') && !leads_out(
                head.name,
            ) {
                Some((parts[parts.len() - 2], parts[parts.len() - 1]))
            } else {
                None
            }
        }),
{
    lemma_portable_path(head.name, head.path);
    all_texts_are_among(kept_segments(segments(head.name)));
}

/// What is read of a bundle whose names are portable is the same everywhere: it depends on the
/// bytes alone.
pub proof fn portable_bundle_has_one_outcome(
    bytes: Seq<u8>,
    x: Seq<EntryHeadModel>,
    y: Seq<EntryHeadModel>,
)
    requires
        heads_agree(bytes, x),
        heads_agree(bytes, y),
        forall|i: int|
            0 <= i < archive_count(bytes) ==> is_portable_name(#[trigger] entry_name(bytes, i)),
    ensures
        bundle_outcome(bytes, x) == bundle_outcome(bytes, y),
{
    assert forall|i: int| 0 <= i < archive_count(bytes) implies x[i] == y[i] by {
        assert(is_portable_name(entry_name(bytes, i)));
        lemma_portable_path(x[i].name, x[i].path);
        lemma_portable_path(y[i].name, y[i].path);
    }
    assert(x =~= y);
}

/// Every file that is read belongs to a pet and comes from an entry that is a file.
pub proof fn read_files_are_placed(bytes: Seq<u8>, heads: Seq<EntryHeadModel>, n: nat, k: int)
    requires
        files_of(bytes, heads, n) matches Ok(files) && 0 <= k < files.len(),
    ensures
        exists|i: int|
            {
                &&& 0 <= i < n
                &&& (#[trigger] heads[i]).is_file
                &&& placed(heads[i]) == Some(
                    (
                        files_of(bytes, heads, n)->Ok_0[k].slug,
                        files_of(bytes, heads, n)->Ok_0[k].name,
                    ),
                )
                &&& entry_data(bytes, i) == Ok::<Seq<u8>, Seq<char>>(
                    files_of(bytes, heads, n)->Ok_0[k].bytes,
                )
            },
    decreases n,
{
    let files = files_of(bytes, heads, n)->Ok_0;
    let i = n - 1;
    let before = files_of(bytes, heads, i as nat)->Ok_0;
    if k < before.len() {
        read_files_are_placed(bytes, heads, i as nat, k);
        assert(files[k] == before[k]);
    } else {
        assert(heads[i].is_file);
    }
}

/// A model of an entry has its fields, each as it is.
pub proof fn entry_head_is_modelled_by_its_fields(x: EntryHead)
    ensures
        x.deep_view().name == x.name@,
        x.deep_view().is_file == x.is_file,
        x.deep_view().path == x.path.deep_view(),
{
}

/// A model of a file of a bundle has its fields, each as it is.
pub proof fn bundle_file_is_modelled_by_its_fields(x: BundleFile)
    ensures
        x.deep_view().slug == x.slug@,
        x.deep_view().name == x.name@,
        x.deep_view().bytes == x.bytes.deep_view(),
{
}

/// An entry that is not a file, or that has no path, belongs to no pet. A file whose path consists
/// of texts belongs to the pet that the last but one of them names, under the last one as its
/// name, where there are two.
pub proof fn the_last_two_parts_place_a_file(head: EntryHeadModel, parts: Seq<Seq<char>>)
    ensures
        !head.is_file ==> placed(head) is None,
        head.path is None ==> placed(head) is None,
        head.is_file ==> (head.path matches Some(path) ==> {
            let texts = texts_among(path);
            &&& texts.len() < 2 ==> placed(head) is None
            &&& texts.len() >= 2 ==> placed(head) == Some(
                (texts[texts.len() - 2], texts[texts.len() - 1]),
            )
        }),
        head.is_file && head.path == Some(parts.map_values(|s: Seq<char>| Some(s))) ==> {
            &&& parts.len() < 2 ==> placed(head) is None
            &&& parts.len() >= 2 ==> placed(head) == Some(
                (parts[parts.len() - 2], parts[parts.len() - 1]),
            )
        },
{
    all_texts_are_among(parts);
}

/// `p` gives, for each file, the entry that it was read from: entries in ascending order, each of
/// which belongs to the pet and has the name and the contents that the file has, and among which
/// are all that belong to a pet.
pub open spec fn is_reading(
    bytes: Seq<u8>,
    heads: Seq<EntryHeadModel>,
    n: nat,
    files: Seq<BundleFileModel>,
    p: Seq<int>,
) -> bool {
    &&& p.len() == files.len()
    &&& forall|k: int|
        0 <= k < p.len() ==> {
            &&& 0 <= #[trigger] p[k] < n
            &&& placed(heads[p[k]]) == Some((files[k].slug, files[k].name))
            &&& entry_data(bytes, p[k]) == Ok::<Seq<u8>, Seq<char>>(files[k].bytes)
        }
    &&& forall|k: int, l: int| #![trigger p[k], p[l]] 0 <= k < l < p.len() ==> p[k] < p[l]
    &&& forall|i: int|
        0 <= i < n && (#[trigger] placed(heads[i])) is Some ==> p.contains(i)
}

/// The files that are read are those of all entries that belong to a pet, in the order of the
/// archive, and no others.
pub proof fn all_that_belongs_to_a_pet_is_read(
    bytes: Seq<u8>,
    heads: Seq<EntryHeadModel>,
    n: nat,
)
    requires
        files_of(bytes, heads, n) is Ok,
    ensures
        exists|p: Seq<int>| #[trigger]
            is_reading(bytes, heads, n, files_of(bytes, heads, n)->Ok_0, p),
    decreases n,
{
    let files = files_of(bytes, heads, n)->Ok_0;
    if n == 0 {
        assert(is_reading(bytes, heads, n, files, seq![]));
    } else {
        let m = (n - 1) as nat;
        let before = files_of(bytes, heads, m)->Ok_0;
        all_that_belongs_to_a_pet_is_read(bytes, heads, m);
        let q = choose|q: Seq<int>| #[trigger] is_reading(bytes, heads, m, before, q);
        if placed(heads[n - 1]) is None {
            assert forall|i: int|
                0 <= i < n && (#[trigger] placed(heads[i])) is Some implies q.contains(i) by {
                assert(i < m);
            }
            assert(is_reading(bytes, heads, n, files, q));
        } else {
            let p = q.push(n - 1);
            assert forall|k: int| 0 <= k < p.len() implies {
                &&& 0 <= #[trigger] p[k] < n
                &&& placed(heads[p[k]]) == Some((files[k].slug, files[k].name))
                &&& entry_data(bytes, p[k]) == Ok::<Seq<u8>, Seq<char>>(files[k].bytes)
            } by {
                if k < q.len() {
                    assert(p[k] == q[k]);
                    assert(files[k] == before[k]);
                }
            }
            assert forall|k: int, l: int|
                #![trigger p[k], p[l]]
                0 <= k < l < p.len() implies p[k] < p[l] by {
                assert(p[k] == q[k]);
                if l < q.len() {
                    assert(p[l] == q[l]);
                }
            }
            assert forall|i: int|
                0 <= i < n && (#[trigger] placed(heads[i])) is Some implies p.contains(i) by {
                if i < m {
                    assert(q.contains(i));
                    let k = choose|k: int| 0 <= k < q.len() && q[k] == i;
                    assert(p[k] == i);
                } else {
                    assert(p[q.len() as int] == i);
                }
            }
            assert(is_reading(bytes, heads, n, files, p));
        }
    }
}

/// An entry stops the reading with this fault: it cannot be looked at, or it belongs to a pet and
/// its contents cannot be read.
pub open spec fn stops_with(
    bytes: Seq<u8>,
    heads: Seq<EntryHeadModel>,
    i: int,
    e: Seq<char>,
) -> bool {
    ||| entry_fault(bytes, i) == Some(e)
    ||| entry_fault(bytes, i) is None && placed(heads[i]) is Some && entry_data(bytes, i) == Err::<
        Seq<u8>,
        Seq<char>,
    >(e)
}

/// Reading fails exactly when an entry stops it, and with the fault of the first such entry.
pub proof fn the_first_fault_is_told(bytes: Seq<u8>, heads: Seq<EntryHeadModel>, n: nat)
    ensures
        files_of(bytes, heads, n) is Ok ==> forall|i: int, e: Seq<char>|
            0 <= i < n ==> !#[trigger] stops_with(bytes, heads, i, e),
        files_of(bytes, heads, n) matches Err(e) ==> exists|i: int|
            {
                &&& 0 <= i < n
                &&& #[trigger] stops_with(bytes, heads, i, e)
                &&& forall|j: int, other: Seq<char>|
                    0 <= j < i ==> !#[trigger] stops_with(bytes, heads, j, other)
            },
    decreases n,
{
    if n > 0 {
        let m = (n - 1) as nat;
        the_first_fault_is_told(bytes, heads, m);
        if let Err(e) = files_of(bytes, heads, n) {
            if files_of(bytes, heads, m) is Ok {
                assert(stops_with(bytes, heads, n - 1, e));
            }
        }
    }
}

/// What cannot be opened tells why; what can be opened gives the files of all its entries.
pub proof fn an_archive_is_opened_or_tells_why(bytes: Seq<u8>, heads: Seq<EntryHeadModel>)
    ensures
        archive_fault(bytes) matches Some(e) ==> bundle_outcome(bytes, heads) == Err::<
            Seq<BundleFileModel>,
            Seq<char>,
        >(e),
        archive_fault(bytes) is None ==> bundle_outcome(bytes, heads) == files_of(
            bytes,
            heads,
            archive_count(bytes),
        ),
{
}

/// The files of a pet stand in the order of the bundle: those of two parts are those of each, and
/// one file is among them exactly when it is that pet's.
pub proof fn files_for_in_parts(
    a: Seq<BundleFileModel>,
    b: Seq<BundleFileModel>,
    slug: Seq<char>,
)
    ensures
        files_for(a + b, slug) == files_for(a, slug) + files_for(b, slug),
        b.len() == 1 && b[0].slug == slug ==> files_for(b, slug) == seq![(b[0].name, b[0].bytes)],
        b.len() == 1 && b[0].slug != slug ==> files_for(b, slug).len() == 0,
    decreases b.len(),
{
    reveal_with_fuel(files_for, 2);
    if b.len() > 0 {
        let init = b.drop_last();
        files_for_in_parts(a, init, slug);
        assert((a + b).drop_last() =~= a + init);
        assert((a + b).last() == b.last());
        if b.len() == 1 {
            assert(init =~= seq![]);
            assert(files_for(init, slug) =~= seq![]);
        }
    } else {
        assert(a + b =~= a);
    }
    assert(files_for(a + b, slug) =~= files_for(a, slug) + files_for(b, slug));
}

/// A pet is among the grouped ones exactly when the bundle has a file of it, and has its files.
pub proof fn a_pet_is_grouped_with_its_files(files: Seq<BundleFileModel>, slug: Seq<char>)
    ensures
        by_pet(files).contains_key(slug) <==> exists|i: int|
            0 <= i < files.len() && (#[trigger] files[i]).slug == slug,
        by_pet(files).contains_key(slug) ==> by_pet(files)[slug] == files_for(files, slug),
{
    let own = files_for(files, slug);
    if own.len() > 0 {
        assert(own.contains(own[0]));
        grouping_keeps_every_file(files, slug, own[0].0, own[0].1);
        let f = BundleFileModel { slug, name: own[0].0, bytes: own[0].1 };
        let i = choose|i: int| 0 <= i < files.len() && files[i] == f;
        assert(files[i].slug == slug);
    }
    if exists|i: int| 0 <= i < files.len() && (#[trigger] files[i]).slug == slug {
        let i = choose|i: int| 0 <= i < files.len() && (#[trigger] files[i]).slug == slug;
        let f = files[i];
        assert(f =~= BundleFileModel { slug, name: f.name, bytes: f.bytes });
        assert(files.contains(f));
        grouping_keeps_every_file(files, slug, f.name, f.bytes);
        assert(own.len() > 0);
    }
}

/// What reading gives is modelled by what it holds.
pub proof fn reading_is_modelled_by_what_it_holds(r: Result<Vec<BundleFile>, String>)
    ensures
        match r {
            Ok(files) => bundle_model(r) == Ok::<Seq<BundleFileModel>, Seq<char>>(
                files.deep_view(),
            ),
            Err(e) => bundle_model(r) == Err::<Seq<BundleFileModel>, Seq<char>>(e@),
        },
{
}

} // verus!
