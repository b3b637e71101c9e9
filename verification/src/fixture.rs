//! A fixture: a snippet of source with the outcome that is expected of it.

use crate::manifest::{manifest_of, parse_manifest, Manifest, ManifestView};
use crate::model::{Expectation, ExpectationView, LoadError, RawToolOutput};
use crate::scan::{final_position, is_word, last_position, tail};
use crate::text::chars_of;
use vstd::prelude::*;

verus! {

/// Whether a snippet is a program of its own or a library.
#[derive(Clone, Copy, Debug, PartialEq, Eq, Structural)]
pub enum Variant {
    Program,
    Library,
}

/// A snippet of source with the outcome that is expected of it. It is made
/// once, when it is loaded, and then only read.
#[derive(Clone, Debug, PartialEq, Eq)]
pub struct Fixture {
    name: String,
    source: String,
    variant: Variant,
    expectation: Expectation,
}

pub struct FixtureView {
    pub name: Seq<char>,
    pub source: Seq<char>,
    pub variant: Variant,
    pub expectation: ExpectationView,
}

impl View for Fixture {
    type V = FixtureView;

    closed spec fn view(&self) -> FixtureView {
        FixtureView {
            name: self.name@,
            source: self.source@,
            variant: self.variant,
            expectation: self.expectation@,
        }
    }
}

/// The path of the source file of a fixture: the one that its manifest
/// names, or `src/main.rs` where it names none.
pub open spec fn source_path_of(m: ManifestView) -> Seq<char> {
    match m.source {
        Some(path) => path,
        None => "src/main.rs"@,
    }
}

/// The last part of a path: what follows its last `/`.
pub open spec fn file_name(path: Seq<char>) -> Seq<char> {
    match last_position(path, '/') {
        Some(k) => path.skip(k + 1),
        None => path,
    }
}

/// The variant of the snippet at the given path: a library where the file
/// is named `lib.rs`, a program otherwise.
pub open spec fn variant_of(path: Seq<char>) -> Variant {
    if file_name(path) == "lib.rs"@ {
        Variant::Library
    } else {
        Variant::Program
    }
}

/// What reading a manifest gives: the manifest, or why the fixture cannot
/// be loaded.
pub open spec fn manifest_read(manifest: Option<Seq<char>>) -> Result<ManifestView, LoadError> {
    match manifest {
        None => Err(LoadError::MissingManifest),
        Some(text) => match manifest_of(text) {
            Ok(m) => Ok(m),
            Err(e) => Err(LoadError::Manifest(e)),
        },
    }
}

/// The fixture of the given name, manifest and source text, or why it
/// cannot be loaded where there is no source text.
pub open spec fn fixture_of(name: Seq<char>, m: ManifestView, source: Option<Seq<char>>) -> Result<
    FixtureView,
    LoadError,
> {
    match source {
        None => Err(LoadError::MissingSource),
        Some(text) => Ok(
            FixtureView {
                name,
                source: text,
                variant: variant_of(source_path_of(m)),
                expectation: m.expectation,
            },
        ),
    }
}

/// Reads the manifest of a fixture, given the manifest's text where the
/// fixture has a manifest.
pub fn read_manifest(manifest: Option<&str>) -> (r: Result<Manifest, LoadError>)
    ensures
        match r {
            Ok(m) => manifest_read(
                match manifest {
                    Some(text) => Some(text@),
                    None => None,
                },
            ) == Ok::<ManifestView, LoadError>(m@) && m@.expectation.well_formed(),
            Err(e) => manifest_read(
                match manifest {
                    Some(text) => Some(text@),
                    None => None,
                },
            ) == Err::<ManifestView, LoadError>(e),
        },
{
    match manifest {
        None => Err(LoadError::MissingManifest),
        Some(text) => match parse_manifest(text) {
            Ok(m) => Ok(m),
            Err(e) => Err(LoadError::Manifest(e)),
        },
    }
}

/// The path of the source file of a fixture.
pub fn source_path(m: &Manifest) -> (r: String)
    ensures
        r@ == source_path_of(m@),
{
    match &m.source {
        Some(path) => path.clone(),
        None => "src/main.rs".to_owned(),
    }
}

/// The variant of the snippet at the given path.
pub fn variant_at(path: &str) -> (r: Variant)
    ensures
        r == variant_of(path@),
{
    let chars = chars_of(path);
    let all = chars.as_slice();
    let name = match final_position(all, '/') {
        Some(k) => tail(all, k + 1),
        None => all,
    };
    if is_word(name, "lib.rs") {
        Variant::Library
    } else {
        Variant::Program
    }
}

impl Fixture {
    /// Makes the fixture of the given name from its manifest and from the
    /// text of its source file, where that file was found.
    pub fn assemble(name: &str, m: Manifest, source: Option<String>) -> (r: Result<
        Fixture,
        LoadError,
    >)
        ensures
            match r {
                Ok(f) => fixture_of(name@, m@, source.deep_view()) == Ok::<FixtureView, LoadError>(
                    f@,
                ),
                Err(e) => fixture_of(name@, m@, source.deep_view()) == Err::<
                    FixtureView,
                    LoadError,
                >(e),
            },
    {
        match source {
            None => Err(LoadError::MissingSource),
            Some(text) => {
                let path = source_path(&m);
                let variant = variant_at(path.as_str());
                Ok(
                    Fixture {
                        name: name.to_owned(),
                        source: text,
                        variant,
                        expectation: m.expectation,
                    },
                )
            },
        }
    }

    /// The name of the fixture.
    pub fn name(&self) -> (r: &String)
        ensures
            r@ == self@.name,
    {
        &self.name
    }

    /// The text of the snippet.
    pub fn source(&self) -> (r: &String)
        ensures
            r@ == self@.source,
    {
        &self.source
    }

    /// Whether the snippet is a program or a library.
    pub fn variant(&self) -> (r: Variant)
        ensures
            r == self@.variant,
    {
        self.variant
    }

    /// What the fixture expects.
    pub fn expectation(&self) -> (r: &Expectation)
        ensures
            r@ == self@.expectation,
    {
        &self.expectation
    }

    /// Whether the tests are to be run after the compile step: where the
    /// fixture expects test results and the compile step succeeded.
    pub fn runs_tests(&self, compile: &RawToolOutput) -> (r: bool)
        ensures
            r == (self@.expectation is TestResults && compile.exit_code == 0),
    {
        match &self.expectation {
            Expectation::TestResults { .. } => compile.exit_code == 0,
            _ => false,
        }
    }
}

} // verus!
