//! The mod-manifest option values the composite layers reference by name: the
//! file-set option kinds and the path option. Text is UTF-8 bytes; file maps
//! are ordered association lists from logical game path to packed output path.

use vstd::prelude::*;

use crate::composite::Path;

verus! {

/// A file-set option: the default choice's index and the ordered choices.
pub struct ValueFiles {
    pub default: u32,
    pub options: Vec<ValueFilesOption>,
}

impl Default for ValueFiles {
    /// The empty file set with default index zero.
    fn default() -> (r: ValueFiles)
        ensures
            r.default == 0,
            r.options@.len() == 0,
    {
        ValueFiles { default: 0, options: Vec::new() }
    }
}

/// One choice of a file-set option: its name, description, the option it
/// inherits from, and its (game path, output path) file map.
pub struct ValueFilesOption {
    pub name: Vec<u8>,
    pub description: Vec<u8>,
    pub inherit: Option<Vec<u8>>,
    pub files: Vec<(Vec<u8>, Vec<u8>)>,
    pub file_swaps: Vec<(Vec<u8>, Vec<u8>)>,
    pub manipulations: Vec<i32>,
}

impl Default for ValueFilesOption {
    /// A fresh sub option named "New sub option" with nothing in it.
    fn default() -> (r: ValueFilesOption)
        ensures
            r.name@ == ("New sub option")@.map(|i: int, c: char| c as u8),
            r.description@.len() == 0,
            r.inherit is None,
            r.files@.len() == 0,
            r.file_swaps@.len() == 0,
            r.manipulations@.len() == 0,
    {
        let name = crate::text::lit_bytes("New sub option");
        proof {
            vstd::string::is_ascii_spec_bytes("New sub option");
            reveal_strlit("New sub option");
            assert(name@ =~= ("New sub option")@.map(|i: int, c: char| c as u8));
        }
        ValueFilesOption {
            name,
            description: Vec::new(),
            inherit: None,
            files: Vec::new(),
            file_swaps: Vec::new(),
            manipulations: Vec::new(),
        }
    }
}

/// A path option: the default choice's index and the named choices, each an
/// ordered list of (name, texture reference) pairs.
pub struct ValuePath {
    pub default: u32,
    pub options: Vec<(Vec<u8>, Vec<(Vec<u8>, Path)>)>,
}

impl Default for ValuePath {
    /// The empty path option with default index zero.
    fn default() -> (r: ValuePath)
        ensures
            r.default == 0,
            r.options@.len() == 0,
    {
        ValuePath { default: 0, options: Vec::new() }
    }
}

} // verus!
