//! The sources of an atlas: the images and font descriptions that were
//! loaded, under the names by which other sources refer to them.

use vstd::prelude::*;
use crate::bitmap::{Bitmap, Picture};
use crate::fnt::FntFile;
use crate::text::str_eq;

verus! {

/// Names a loaded source: its kind and its number among the sources of
/// that kind.
#[derive(Debug, Clone, Copy, Hash, PartialEq, Eq, Structural)]
pub enum SourceId {
    Image(usize),
    Fnt(usize),
}

impl SourceId {
    /// The number of the source among the sources of its kind.
    pub fn index(self) -> (i: usize)
        ensures
            i == self.spec_index(),
    {
        match self {
            SourceId::Image(i) => i,
            SourceId::Fnt(i) => i,
        }
    }

    /// The number of the source among the sources of its kind.
    pub open spec fn spec_index(self) -> usize {
        match self {
            SourceId::Image(i) => i,
            SourceId::Fnt(i) => i,
        }
    }
}

/// A rectangle of a source image that holds one sprite.
#[derive(Debug, Clone, Copy, PartialEq, Eq, Structural)]
pub struct SourceSprite {
    pub image_source_id: SourceId,
    pub x: i32,
    pub y: i32,
    pub width: i32,
    pub height: i32,
}

impl SourceSprite {
    /// The sprite lies in an image of the given size.
    pub open spec fn lies_within(self, image_width: u32, image_height: u32) -> bool {
        &&& 0 <= self.x
        &&& 0 <= self.y
        &&& 0 <= self.width
        &&& 0 <= self.height
        &&& self.x + self.width <= image_width
        &&& self.y + self.height <= image_height
    }

    /// Whether the sprite lies in an image of the given size.
    pub fn fits(&self, image_width: u32, image_height: u32) -> (inside: bool)
        ensures
            inside == self.lies_within(image_width, image_height),
    {
        self.x >= 0 && self.y >= 0 && self.width >= 0 && self.height >= 0 && self.x as i64
            + self.width as i64 <= image_width as i64 && self.y as i64 + self.height as i64
            <= image_height as i64
    }
}

/// The pixels of a sprite, or why they cannot be had.
pub open spec fn sprite_picture(sprite: SourceSprite, srcs: Sources) -> Result<
    Picture,
    SourceError,
> {
    match sprite.image_source_id {
        SourceId::Fnt(_) => Err(SourceError::IncompatibleSourceId),
        SourceId::Image(i) => if i >= srcs.images@.len() {
            Err(SourceError::InvalidSourceId)
        } else {
            let image = srcs.images@[i as int].1@;
            if !sprite.lies_within(image.size.0 as u32, image.size.1 as u32) {
                Err(SourceError::SpriteOutOfBounds)
            } else {
                Ok(
                    image.cropped(
                        sprite.x as int,
                        sprite.y as int,
                        (sprite.width as int, sprite.height as int),
                    ),
                )
            }
        },
    }
}

impl SourceSprite {
    /// The pixels of the sprite, as an image of its own.
    pub fn get_image(&self, srcs: &Sources) -> (picture: Result<Bitmap, SourceError>)
        ensures
            picture matches Ok(p) ==> sprite_picture(*self, *srcs) == Ok::<Picture, SourceError>(
                p@,
            ),
            picture matches Err(e) ==> sprite_picture(*self, *srcs) == Err::<Picture, SourceError>(
                e,
            ),
    {
        let atlas = srcs.get_image(self.image_source_id)?;
        if !self.fits(atlas.width(), atlas.height()) {
            return Err(SourceError::SpriteOutOfBounds);
        }
        Ok(atlas.crop(self.x as u32, self.y as u32, self.width as u32, self.height as u32))
    }
}

/// The kinds of source file, told apart by the extension of the file name.
#[derive(Debug, Clone, Copy, PartialEq, Eq, Structural)]
pub enum SourceKind {
    Image,
    Fnt,
}

/// Why a source could not be found or loaded.
#[derive(Debug, Clone, Copy, PartialEq, Eq, Structural)]
pub enum SourceError {
    /// No source was loaded under this name.
    UnknownAlias,
    /// The source is of another kind than the one asked for.
    IncompatibleSourceId,
    /// No source of this kind has this number.
    InvalidSourceId,
    /// The extension of the file name is not one of a source file.
    UnrecognizedExtension,
    /// The sprite does not lie in its source image.
    SpriteOutOfBounds,
}

/// The source that each name stands for. A name that was given again
/// stands for the source it was last given to.
pub open spec fn alias_map(aliases: Seq<(String, SourceId)>) -> Map<Seq<char>, SourceId>
    decreases aliases.len(),
{
    if aliases.len() == 0 {
        Map::empty()
    } else {
        alias_map(aliases.drop_last()).insert(aliases.last().0@, aliases.last().1)
    }
}

/// The kind of source that a file with the extension `ext` holds.
pub open spec fn kind_of_extension(ext: Seq<char>) -> Option<SourceKind> {
    if ext == "fnt"@ {
        Some(SourceKind::Fnt)
    } else if ext == "png"@ {
        Some(SourceKind::Image)
    } else {
        None
    }
}

/// What is to be done with a source file that is asked for.
#[derive(Debug, Clone, Copy, PartialEq, Eq, Structural)]
pub enum LoadStep {
    /// The file was loaded before, as the source with this name.
    AlreadyLoaded(SourceId),
    /// The file is to be read, as a source of this kind.
    Load(SourceKind),
}

impl SourceKind {
    /// Tells the kind of a source file by the extension of its name.
    pub fn from_extension(ext: &str) -> (kind: Result<SourceKind, SourceError>)
        ensures
            kind == match kind_of_extension(ext@) {
                Some(k) => Ok::<SourceKind, SourceError>(k),
                None => Err::<SourceKind, SourceError>(SourceError::UnrecognizedExtension),
            },
    {
        if str_eq(ext, "fnt") {
            Ok(SourceKind::Fnt)
        } else if str_eq(ext, "png") {
            Ok(SourceKind::Image)
        } else {
            Err(SourceError::UnrecognizedExtension)
        }
    }
}

/// The loaded sources.
///
/// Each source is kept with the path of the file it was read from. The
/// names under which sources can be found are kept in the order in which
/// they were given.
pub struct Sources {
    pub images: Vec<(String, Bitmap)>,
    pub fnt_files: Vec<(String, FntFile)>,
    pub source_file_aliases: Vec<(String, SourceId)>,
}

impl Sources {
    /// The source that each name stands for.
    pub open spec fn aliases(&self) -> Map<Seq<char>, SourceId> {
        alias_map(self.source_file_aliases@)
    }

    /// `id` names a source that was loaded.
    pub open spec fn holds(&self, id: SourceId) -> bool {
        match id {
            SourceId::Image(i) => i < self.images@.len(),
            SourceId::Fnt(i) => i < self.fnt_files@.len(),
        }
    }

    /// No sources.
    pub fn new() -> (sources: Self)
        ensures
            sources.images@.len() == 0,
            sources.fnt_files@.len() == 0,
            sources.source_file_aliases@.len() == 0,
            sources.aliases() == Map::<Seq<char>, SourceId>::empty(),
    {
        Self { images: Vec::new(), fnt_files: Vec::new(), source_file_aliases: Vec::new() }
    }

    /// The source that was loaded under the name `alias`.
    pub fn find_id(&self, alias: &String) -> (found: Result<SourceId, SourceError>)
        ensures
            found == if self.aliases().contains_key(alias@) {
                Ok::<SourceId, SourceError>(self.aliases()[alias@])
            } else {
                Err::<SourceId, SourceError>(SourceError::UnknownAlias)
            },
    {
        let mut i: usize = self.source_file_aliases.len();
        assert(self.source_file_aliases@.take(i as int) =~= self.source_file_aliases@);
        while i > 0
            invariant
                i <= self.source_file_aliases@.len(),
                alias_map(self.source_file_aliases@).contains_key(alias@) == alias_map(
                    self.source_file_aliases@.take(i as int),
                ).contains_key(alias@),
                alias_map(self.source_file_aliases@).contains_key(alias@) ==> alias_map(
                    self.source_file_aliases@,
                )[alias@] == alias_map(self.source_file_aliases@.take(i as int))[alias@],
            decreases i,
        {
            let ghost shorter = self.source_file_aliases@.take(i as int);
            assert(shorter.drop_last() =~= self.source_file_aliases@.take(i - 1));
            i -= 1;
            if str_eq(self.source_file_aliases[i].0.as_str(), alias.as_str()) {
                return Ok(self.source_file_aliases[i].1);
            }
        }
        Err(SourceError::UnknownAlias)
    }

    /// Says what is to be done with the source file of the given name and
    /// extension: nothing, if a source was loaded under that name; else it
    /// is to be read as the kind of source that the extension tells. A file
    /// with another extension is refused, loaded or not.
    pub fn plan_load(&self, file_name: &String, ext: &str) -> (step: Result<LoadStep, SourceError>)
        ensures
            step == match kind_of_extension(ext@) {
                None => Err::<LoadStep, SourceError>(SourceError::UnrecognizedExtension),
                Some(kind) => if self.aliases().contains_key(file_name@) {
                    Ok::<LoadStep, SourceError>(LoadStep::AlreadyLoaded(self.aliases()[file_name@]))
                } else {
                    Ok::<LoadStep, SourceError>(LoadStep::Load(kind))
                },
            },
    {
        let kind = SourceKind::from_extension(ext)?;
        match self.find_id(file_name) {
            Ok(id) => Ok(LoadStep::AlreadyLoaded(id)),
            Err(_) => Ok(LoadStep::Load(kind)),
        }
    }

    /// The image that `id` names.
    pub fn get_image(&self, id: SourceId) -> (image: Result<&Bitmap, SourceError>)
        ensures
            image == match id {
                SourceId::Image(i) => if i < self.images@.len() {
                    Ok::<&Bitmap, SourceError>(&self.images@[i as int].1)
                } else {
                    Err::<&Bitmap, SourceError>(SourceError::InvalidSourceId)
                },
                SourceId::Fnt(_) => Err::<&Bitmap, SourceError>(SourceError::IncompatibleSourceId),
            },
    {
        match id {
            SourceId::Image(index) => {
                if index < self.images.len() {
                    Ok(&self.images[index].1)
                } else {
                    Err(SourceError::InvalidSourceId)
                }
            },
            SourceId::Fnt(_) => Err(SourceError::IncompatibleSourceId),
        }
    }

    /// The font description that `id` names.
    pub fn get_fnt(&self, id: SourceId) -> (fnt: Result<&FntFile, SourceError>)
        ensures
            fnt == match id {
                SourceId::Fnt(i) => if i < self.fnt_files@.len() {
                    Ok::<&FntFile, SourceError>(&self.fnt_files@[i as int].1)
                } else {
                    Err::<&FntFile, SourceError>(SourceError::InvalidSourceId)
                },
                SourceId::Image(_) => Err::<&FntFile, SourceError>(
                    SourceError::IncompatibleSourceId,
                ),
            },
    {
        match id {
            SourceId::Fnt(index) => {
                if index < self.fnt_files.len() {
                    Ok(&self.fnt_files[index].1)
                } else {
                    Err(SourceError::InvalidSourceId)
                }
            },
            SourceId::Image(_) => Err(SourceError::IncompatibleSourceId),
        }
    }

    /// The path of the file that the source `id` was read from.
    pub fn get_path(&self, id: SourceId) -> (path: Result<&String, SourceError>)
        ensures
            path == if self.holds(id) {
                Ok::<&String, SourceError>(
                    match id {
                        SourceId::Image(i) => &self.images@[i as int].0,
                        SourceId::Fnt(i) => &self.fnt_files@[i as int].0,
                    },
                )
            } else {
                Err::<&String, SourceError>(SourceError::InvalidSourceId)
            },
    {
        match id {
            SourceId::Image(index) => {
                if index < self.images.len() {
                    Ok(&self.images[index].0)
                } else {
                    Err(SourceError::InvalidSourceId)
                }
            },
            SourceId::Fnt(index) => {
                if index < self.fnt_files.len() {
                    Ok(&self.fnt_files[index].0)
                } else {
                    Err(SourceError::InvalidSourceId)
                }
            },
        }
    }

    /// Takes in an image that was read from `path`, under the name `alias`.
    pub fn add_image(&mut self, alias: String, path: String, image: Bitmap) -> (id: SourceId)
        ensures
            id == SourceId::Image(old(self).images@.len() as usize),
            final(self).images@ == old(self).images@.push((path, image)),
            final(self).fnt_files@ == old(self).fnt_files@,
            final(self).source_file_aliases@ == old(self).source_file_aliases@.push((alias, id)),
            final(self).aliases() == old(self).aliases().insert(alias@, id),
    {
        let id = SourceId::Image(self.images.len());
        self.images.push((path, image));
        self.source_file_aliases.push((alias, id));
        assert(self.source_file_aliases@.drop_last() =~= old(self).source_file_aliases@);
        id
    }

    /// Takes in a font description that was read from `path`, under the
    /// name `alias`.
    pub fn add_fnt(&mut self, alias: String, path: String, fnt: FntFile) -> (id: SourceId)
        ensures
            id == SourceId::Fnt(old(self).fnt_files@.len() as usize),
            final(self).fnt_files@ == old(self).fnt_files@.push((path, fnt)),
            final(self).images@ == old(self).images@,
            final(self).source_file_aliases@ == old(self).source_file_aliases@.push((alias, id)),
            final(self).aliases() == old(self).aliases().insert(alias@, id),
    {
        let id = SourceId::Fnt(self.fnt_files.len());
        self.fnt_files.push((path, fnt));
        self.source_file_aliases.push((alias, id));
        assert(self.source_file_aliases@.drop_last() =~= old(self).source_file_aliases@);
        id
    }
}

} // verus!
