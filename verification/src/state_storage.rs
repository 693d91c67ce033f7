//! Where the state of the device is kept.

use crate::device_info::DeviceInfo;
use crate::hex_text::{encode, hex_is_read_back, hex_of};
use vstd::prelude::*;
use vstd::string::StringExecFns;

verus! {

pub const PATH_SUFFIX: &'static str = ".toml";

pub struct StateStorage {
    path_prefix: String,
}

impl StateStorage {
    /// What the paths of all the files start with.
    pub closed spec fn prefix(&self) -> Seq<char> {
        self.path_prefix@
    }

    /// The prefix of the paths of the device with the identifier.
    pub open spec fn prefix_of(state_dir: Seq<char>, separator: Seq<char>, device_id: Seq<u8>) -> Seq<char> {
        state_dir + separator + hex_of(device_id) + separator
    }

    /// Every device has a directory of its own below the directory of all states.
    pub fn new(state_dir: &str, separator: &str, self_info: &DeviceInfo) -> (storage: Self)
        ensures
            storage.prefix() == Self::prefix_of(state_dir@, separator@, self_info.factory_device_id@),
    {
        let mut dir = state_dir.to_owned();
        dir.append(separator);
        dir.append(encode(self_info.factory_device_id.as_slice()).as_str());
        dir.append(separator);
        Self { path_prefix: dir }
    }

    /// The path of a file with a part of the state.
    pub fn full_path(&self, name: &str) -> (path: String)
        ensures
            path@ == path_of(self.prefix(), name@),
    {
        let mut path = self.path_prefix.clone();
        path.append(name);
        path.append(PATH_SUFFIX);
        path
    }

    /// Parts of the state which have different names are kept in different files.
    pub proof fn paths_differ(&self, a: Seq<char>, b: Seq<char>)
        requires
            a != b,
        ensures
            path_of(self.prefix(), a) != path_of(self.prefix(), b),
    {
        lemma_paths_differ(self.prefix(), a, b);
    }
}

/// The path of a file with a part of the state.
pub open spec fn path_of(prefix: Seq<char>, name: Seq<char>) -> Seq<char> {
    prefix + name + PATH_SUFFIX@
}

proof fn lemma_paths_differ(prefix: Seq<char>, a: Seq<char>, b: Seq<char>)
    requires
        a != b,
    ensures
        path_of(prefix, a) != path_of(prefix, b),
{
    let x = path_of(prefix, a);
    let y = path_of(prefix, b);
    let start = prefix.len() as int;
    assert(x.subrange(start, x.len() - PATH_SUFFIX@.len()) =~= a);
    assert(y.subrange(start, y.len() - PATH_SUFFIX@.len()) =~= b);
}

/// The identifier of the device is the key of its state: two storages below the same directory keep
/// a part of the state in the same file exactly if they belong to devices with the same identifier
/// and it is the same part.
pub proof fn device_id_is_the_storage_key(
    state_dir: Seq<char>,
    separator: Seq<char>,
    id1: Seq<u8>,
    name1: Seq<char>,
    id2: Seq<u8>,
    name2: Seq<char>,
)
    requires
        id1.len() == id2.len(),
    ensures
        path_of(StateStorage::prefix_of(state_dir, separator, id1), name1) == path_of(
            StateStorage::prefix_of(state_dir, separator, id2),
            name2,
        ) <==> id1 == id2 && name1 == name2,
{
    let x = path_of(StateStorage::prefix_of(state_dir, separator, id1), name1);
    let y = path_of(StateStorage::prefix_of(state_dir, separator, id2), name2);
    let start = (state_dir + separator).len() as int;
    let end = start + 2 * id1.len();
    assert(x.subrange(start, end) =~= hex_of(id1));
    assert(y.subrange(start, end) =~= hex_of(id2));
    hex_is_read_back(id1);
    hex_is_read_back(id2);
    if id1 == id2 && name1 != name2 {
        lemma_paths_differ(StateStorage::prefix_of(state_dir, separator, id1), name1, name2);
    }
}

/// As long as files hold what was last written to them, a part of the state is loaded as it was saved
/// last, also by another storage of a device with the same identifier; and saving it changes neither
/// another part of the state nor the state of a device with another identifier.
pub proof fn saved_state_is_loaded<Content>(
    files: Map<Seq<char>, Content>,
    content: Content,
    state_dir: Seq<char>,
    separator: Seq<char>,
    id1: Seq<u8>,
    name1: Seq<char>,
    id2: Seq<u8>,
    name2: Seq<char>,
)
    requires
        id1.len() == id2.len(),
    ensures
        ({
            let saved_at = path_of(StateStorage::prefix_of(state_dir, separator, id1), name1);
            let loaded_from = path_of(StateStorage::prefix_of(state_dir, separator, id2), name2);
            files.insert(saved_at, content).get(loaded_from) == if id1 == id2 && name1 == name2 {
                Some(content)
            } else {
                files.get(loaded_from)
            }
        }),
{
    device_id_is_the_storage_key(state_dir, separator, id1, name1, id2, name2);
}

} // verus!
