//! Turning the bytes of an asset file into an asset.

use crate::sprite::Sprite;
use std::str::Utf8Error;
use vstd::prelude::*;
use vstd::string::StringSliceAdditionalSpecFns;
use vstd::utf8::valid_utf8;

verus! {

/// Why a text is not valid UTF-8.
#[verifier::external_type_specification]
#[verifier::external_body]
pub struct ExUtf8Error(Utf8Error);

/// Calls `std::str::from_utf8`. Not proved: that it gives the text of
/// `bytes` where they are valid UTF-8, and an error where they are not.
#[verifier::external_body]
fn text_of_bytes(bytes: &[u8]) -> (text: Result<&str, Utf8Error>)
    ensures
        match text {
            Ok(text) => valid_utf8(bytes@) && text.spec_bytes() == bytes@,
            Err(_) => !valid_utf8(bytes@),
        },
{
    std::str::from_utf8(bytes)
}

/// Why an asset could not be loaded.
#[derive(Copy, Clone, Debug, PartialEq, Eq, Structural)]
pub enum LoadError {
    /// The bytes of a sprite are not valid UTF-8.
    InvalidUtf8,
}

/// Loads sprites from text files.
#[derive(Copy, Clone, Debug, Default)]
pub struct SpriteLoader;

impl SpriteLoader {
    /// The sprite whose text is `bytes`, or an error where `bytes` are not
    /// valid UTF-8.
    pub fn load(&self, bytes: &[u8]) -> (loaded: Result<Sprite, LoadError>)
        ensures
            match loaded {
                Ok(sprite) => valid_utf8(bytes@) && sprite.spec_bytes() == bytes@
                    && sprite.laid_out(),
                Err(error) => !valid_utf8(bytes@) && error == LoadError::InvalidUtf8,
            },
    {
        match text_of_bytes(bytes) {
            Ok(text) => Ok(Sprite::new(text)),
            Err(_) => Err(LoadError::InvalidUtf8),
        }
    }

    /// The extensions of the files that hold sprites.
    pub fn extensions(&self) -> (extensions: Vec<&'static str>)
        ensures
            extensions@.len() == 1,
            extensions@[0]@ == "txt"@,
    {
        vec!["txt"]
    }
}

/// Loads style maps.
#[derive(Copy, Clone, Debug, Default)]
pub struct StyleMapLoader;

impl StyleMapLoader {
    /// The extensions of the files that hold style maps.
    pub fn extensions(&self) -> (extensions: Vec<&'static str>)
        ensures
            extensions@.len() == 1,
            extensions@[0]@ == "stylemap"@,
    {
        vec!["stylemap"]
    }
}

} // verus!
