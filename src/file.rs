use vstd::prelude::*;

use crate::png::Png;

verus! {

/// A PNG together with the path it was read from.
#[derive(Debug, Clone)]
pub struct File {
    png: Png,
    path: String,
}

impl File {
    /// Pairs a PNG with its path.
    pub fn new(png: Png, path: String) -> (r: File)
        ensures
            r.png_view() == png@,
            r.path_view() == path@,
    {
        File { png, path }
    }

    /// The chunks of the PNG.
    pub closed spec fn png_view(&self) -> Seq<crate::chunk::ChunkView> {
        self.png@
    }

    /// The path, as text.
    pub closed spec fn path_view(&self) -> Seq<char> {
        self.path@
    }

    /// The PNG.
    pub fn png(&self) -> (r: &Png)
        ensures
            r@ == self.png_view(),
    {
        &self.png
    }

    /// The path the PNG was read from.
    pub fn path(&self) -> (r: &str)
        ensures
            r@ == self.path_view(),
    {
        self.path.as_str()
    }
}

} // verus!
