use vstd::prelude::*;
use crate::paths::Path;
use crate::text::{ends_with_char, push_all};

verus! {

broadcast use vstd::string::group_string_axioms;

/// One entry of a zip archive: its name, whether the name stays inside the directory it is
/// extracted to, and its decompressed contents.
pub struct ZipEntry {
    pub name: String,
    pub enclosed: bool,
    pub data: Vec<u8>,
}

/// An entry as plain values: name, whether it stays inside, contents.
pub open spec fn zip_entry_view(e: ZipEntry) -> (Seq<char>, bool, Seq<u8>) {
    (e.name@, e.enclosed, e.data@)
}

/// The entries that the zip crate decodes from the bytes of an archive, in the archive's
/// order, or `None` when it cannot read them.
pub uninterp spec fn zip_contents(bytes: Seq<u8>) -> Option<Seq<(Seq<char>, bool, Seq<u8>)>>;

/// Decodes a zip archive held in memory with `zip::ZipArchive`: for each entry, in order,
/// its name (`ZipFile::name`), whether `ZipFile::enclosed_name` accepts it, and its contents
/// read to the end. The contract names the result `zip_contents` of the bytes: `None` when
/// the archive, an entry, its name or its contents cannot be read.
#[verifier::external_body]
pub fn zip_entries(bytes: &[u8]) -> (r: Option<Vec<ZipEntry>>)
    ensures
        r matches Some(v) ==> zip_contents(bytes@) == Some(v@.map_values(|e: ZipEntry| zip_entry_view(e))),
        r is None ==> zip_contents(bytes@) is None,
{
    let mut archive = zip::ZipArchive::new(std::io::Cursor::new(bytes)).ok()?;
    let mut v = Vec::new();
    for i in 0..archive.len() {
        let mut file = archive.by_index(i).ok()?;
        let mut data = Vec::new();
        std::io::Read::read_to_end(&mut file, &mut data).ok()?;
        let enclosed = file.enclosed_name().is_some();
        v.push(ZipEntry { name: file.name().ok()?.to_string(), enclosed, data });
    }
    Some(v)
}

/// One step of extracting an archive: the path written, whether it is a directory to create
/// (otherwise a file to write), and the position of the entry whose contents go there.
pub struct Extraction {
    pub target: String,
    pub directory: bool,
    pub entry: usize,
}

/// A step as plain values.
pub open spec fn extraction_view(x: Extraction) -> (Seq<char>, bool, usize) {
    (x.target@, x.directory, x.entry)
}

/// Does an entry name denote a directory (it ends with `/`)?
pub open spec fn names_directory(name: Seq<char>) -> bool {
    name.len() > 0 && name.last() == '/'
}

/// The steps of extracting `entries` into `dest`: entries whose name would leave the target
/// directory are skipped; the others go to the text of `dest` followed directly by their
/// name, as a directory when the name ends with `/`.
pub open spec fn plan_of(dest: Seq<char>, entries: Seq<(Seq<char>, bool, Seq<u8>)>) -> Seq<
    (Seq<char>, bool, usize),
>
    decreases entries.len(),
{
    if entries.len() == 0 {
        Seq::empty()
    } else {
        let prev = plan_of(dest, entries.drop_last());
        let e = entries.last();
        if e.1 {
            prev.push((dest + e.0, names_directory(e.0), (entries.len() - 1) as usize))
        } else {
            prev
        }
    }
}

/// The steps of extracting `entries` into `dest`.
pub fn extraction_plan(dest: &Path, entries: &Vec<ZipEntry>) -> (r: Vec<Extraction>)
    ensures
        r@.map_values(|x: Extraction| extraction_view(x)) == plan_of(
            dest@,
            entries@.map_values(|e: ZipEntry| zip_entry_view(e)),
        ),
{
    let ghost es = entries@.map_values(|e: ZipEntry| zip_entry_view(e));
    let base = dest.as_str();
    let mut plan: Vec<Extraction> = Vec::new();
    let mut k: usize = 0;
    while k < entries.len()
        invariant
            k <= entries.len(),
            es == entries@.map_values(|e: ZipEntry| zip_entry_view(e)),
            base@ == dest@,
            plan@.map_values(|x: Extraction| extraction_view(x)) == plan_of(dest@, es.take(k as int)),
        decreases entries.len() - k,
    {
        assert(es.take(k + 1).drop_last() =~= es.take(k as int));
        assert(es.take(k + 1).last() == zip_entry_view(entries@[k as int]));
        let e = &entries[k];
        if e.enclosed {
            let mut target = base.clone();
            push_all(&mut target, e.name.as_str());
            let x = Extraction { target, directory: ends_with_char(e.name.as_str(), '/'), entry: k };
            let ghost before = plan@;
            plan.push(x);
            assert(plan@.map_values(|x: Extraction| extraction_view(x)) =~= before.map_values(
                |x: Extraction| extraction_view(x),
            ).push(extraction_view(x)));
        }
        k = k + 1;
    }
    assert(es.take(entries.len() as int) =~= es);
    plan
}

/// Reads a zip archive held in memory and plans its extraction into `dest`: `None` when the
/// archive cannot be read, otherwise its entries and the steps of extracting them.
pub fn unpack_plan(bytes: &[u8], dest: &Path) -> (r: Option<(Vec<ZipEntry>, Vec<Extraction>)>)
    ensures
        r is None <==> zip_contents(bytes@) is None,
        r matches Some(p) ==> zip_contents(bytes@) == Some(p.0@.map_values(|e: ZipEntry| zip_entry_view(e)))
            && p.1@.map_values(|x: Extraction| extraction_view(x)) == plan_of(
            dest@,
            p.0@.map_values(|e: ZipEntry| zip_entry_view(e)),
        ),
{
    match zip_entries(bytes) {
        Some(entries) => {
            let plan = extraction_plan(dest, &entries);
            Some((entries, plan))
        },
        None => None,
    }
}

} // verus!
