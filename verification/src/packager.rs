//! Archives of installed packages.
use crate::hash::lemma_middle;
use crate::path::{
    a_path_is_its_parent_and_its_name, file_name, file_name_of, is_name, path_join, renamed,
    tail_trimmed, with_file_name,
};
use crate::strategy::or_kept;
use crate::text::{cat4, decimal, decimal_text, decimals_differ};
use vstd::prelude::*;
use vstd::string::*;

verus! {

broadcast use vstd::string::group_string_axioms;

pub struct Packager;

/// The name under which process `pid` writes the file called `name` before it is put into place.
pub open spec fn temp_name(name: Seq<char>, pid: nat) -> Seq<char> {
    "."@ + name + ".tmp-"@ + decimal(pid)
}

impl Packager {
    /// Where process `pid` writes an archive before it is put into place: beside it, so that an
    /// interrupted run never leaves part of an archive under its name.
    pub fn temp_sibling(path: &str, pid: u32) -> (r: String)
        ensures
            r@ == renamed(path@, temp_name(or_kept(file_name_of(path@), ""@), pid as nat)),
    {
        let name = match file_name(path) {
            Some(n) => n,
            None => "".to_owned(),
        };
        let number = decimal_text(pid as u64);
        let temp = cat4(".", name.as_str(), ".tmp-", number.as_str());
        with_file_name(path, temp.as_str())
    }

    /// The message for an archive that could not be written.
    pub fn create_failure(path: &str, cause: &str) -> (r: String)
        ensures
            r@ == "Failed to create archive "@ + path@ + ": "@ + cause@,
    {
        cat4("Failed to create archive ", path, ": ", cause)
    }

    /// The message for an archive that could not be put into place.
    pub fn move_failure(path: &str, cause: &str) -> (r: String)
        ensures
            r@ == "Failed to move archive into place: "@ + path@ + ": "@ + cause@,
    {
        cat4("Failed to move archive into place: ", path, ": ", cause)
    }

    /// The message for an archive that could not be unpacked.
    pub fn unpack_failure(path: &str, cause: &str) -> (r: String)
        ensures
            r@ == "Failed to unpack "@ + path@ + ": "@ + cause@,
    {
        cat4("Failed to unpack ", path, ": ", cause)
    }
}

/// Processes write different files.
pub proof fn processes_write_different_files(name: Seq<char>, a: nat, b: nat)
    requires
        a != b,
    ensures
        temp_name(name, a) != temp_name(name, b),
{
    let head = "."@ + name + ".tmp-"@;
    if temp_name(name, a) == temp_name(name, b) {
        assert(temp_name(name, a) =~= head + decimal(a) + seq![]);
        assert(temp_name(name, b) =~= head + decimal(b) + seq![]);
        decimals_differ(a, b);
        lemma_middle(head, decimal(a), decimal(b), Seq::<char>::empty());
    }
}

/// An archive is written beside its place, under a hidden name with the number of the process, so
/// never under the name itself.
pub proof fn an_archive_is_written_beside_its_place(dir: Seq<char>, name: Seq<char>, pid: nat)
    requires
        is_name(name),
        dir.len() > 0,
        tail_trimmed(dir) == dir,
        dir.last() != '/',
    ensures
        temp_name(name, pid) == "."@ + name + ".tmp-"@ + decimal(pid),
        temp_name(name, pid) != name,
        renamed(dir + "/"@ + name, temp_name(name, pid)) == path_join(dir, temp_name(name, pid)),
{
    reveal_strlit(".");
    reveal_strlit(".tmp-");
    assert(temp_name(name, pid).len() > name.len());
    a_path_is_its_parent_and_its_name(dir, name, name);
}

} // verus!
