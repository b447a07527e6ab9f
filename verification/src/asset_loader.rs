//! The sprite sheets that the game draws from, looked up by name.

use vstd::prelude::*;
use vstd::string::StringExecFns;

verus! {

/// The side of a tile, in pixels.
pub const TILE_SIZE: u32 = 16;

/// The bytes of one tile: four bytes per pixel.
pub const TILE_DATA_SIZE: usize = 1024;

/// One asset file: its path below the asset directory, and what it holds.
pub struct Asset {
    pub path: String,
    pub contents: Vec<u8>,
}

/// The asset directory.
pub struct Assets {
    pub files: Vec<Asset>,
}

/// The path of the sprite sheet called `name`.
pub open spec fn sprite_path(name: Seq<char>) -> Seq<char> {
    "img/"@ + name + ".pix"@
}

/// The file at place `i` is the first of `files` that stands at `path`.
pub open spec fn first_at(files: Seq<Asset>, path: Seq<char>, i: int) -> bool {
    &&& 0 <= i < files.len()
    &&& files[i].path@ == path
    &&& forall|j: int| 0 <= j < i ==> (#[trigger] files[j]).path@ != path
}

/// The sprite sheet called `name`: what the first file at `img/<name>.pix`
/// holds, or `None` where the directory has no such file.
pub fn get_sprite<'a>(assets: &'a Assets, name: &str) -> (sheet: Option<&'a Vec<u8>>)
    ensures
        match sheet {
            Some(bytes) => exists|i: int| #[trigger]
                first_at(assets.files@, sprite_path(name@), i) && *bytes
                    == assets.files@[i].contents,
            None => forall|i: int|
                0 <= i < assets.files@.len() ==> (#[trigger] assets.files@[i]).path@
                    != sprite_path(name@),
        },
{
    let path = "img/".to_owned().concat(name).concat(".pix");
    let mut i: usize = 0;
    while i < assets.files.len()
        invariant
            i <= assets.files@.len(),
            path@ == sprite_path(name@),
            forall|j: int| 0 <= j < i ==> (#[trigger] assets.files@[j]).path@ != path@,
        decreases assets.files@.len() - i,
    {
        if assets.files[i].path == path {
            assert(first_at(assets.files@, sprite_path(name@), i as int));
            return Some(&assets.files[i].contents);
        }
        i += 1;
    }
    None
}

} // verus!
