//! The theme document: a named scene plus the rules for where its image
//! assets live once the document is stored and read back.
use vstd::prelude::*;

use crate::text::{decimal, push_char, push_decimal, push_str, string_of, chars_of};
use crate::theme::layer::{ImageLayer, Layer, LayerId};
use crate::theme::scene::{ids_below, max_id, Scene};

verus! {

/// The document format this library reads and writes.
pub const CURRENT_THEME_FORMAT_VERSION: u32 = 1;

/// Where the image files of a theme live.
#[derive(Debug, Clone, Copy, PartialEq, Eq, Structural)]
pub enum AssetMode {
    /// Image layers name files anywhere on disk.
    External,
    /// Image files sit in the theme's `assets` directory and are named
    /// relative to the theme file.
    Managed,
}

/// A stored theme.
#[derive(Debug)]
pub struct ThemeDocument {
    pub format_version: u32,
    pub name: String,
    pub asset_mode: AssetMode,
    pub scene: Scene,
}

/// Why a theme could not be stored or read back.
#[derive(Debug)]
pub enum ThemeError {
    Io(std::io::Error),
    Json(serde_json::Error),
    UnsupportedVersion { expected: u32, actual: u32 },
    AssetNotFound { path: String },
}

/// Where the final segment of a path starts: just after its last `/`.
pub open spec fn segment_start(path: Seq<char>) -> int
    decreases path.len(),
{
    if path.len() == 0 {
        0
    } else if path.last() == '/' {
        path.len() as int
    } else {
        segment_start(path.drop_last())
    }
}

/// The part of a path after its last `/`.
pub open spec fn last_segment(path: Seq<char>) -> Seq<char> {
    path.subrange(segment_start(path), path.len() as int)
}

/// Position of the last `.` in `s`, or -1.
pub open spec fn last_dot(s: Seq<char>) -> int
    decreases s.len(),
{
    if s.len() == 0 {
        -1
    } else if s.last() == '.' {
        s.len() - 1
    } else {
        last_dot(s.drop_last())
    }
}

proof fn lemma_segment_start(path: Seq<char>, j: int)
    requires
        0 <= j <= path.len(),
        forall|k: int| j <= k < path.len() ==> path[k] != '/',
        j == 0 || path[j - 1] == '/',
    ensures
        segment_start(path) == j,
    decreases path.len(),
{
    if path.len() > j {
        lemma_segment_start(path.drop_last(), j);
    }
}

proof fn lemma_last_dot(s: Seq<char>, d: int)
    requires
        -1 <= d < s.len(),
        forall|k: int| d < k < s.len() ==> s[k] != '.',
        d == -1 || s[d] == '.',
    ensures
        last_dot(s) == d,
    decreases s.len(),
{
    if s.len() > d + 1 {
        lemma_last_dot(s.drop_last(), d);
    }
}

/// The extension of a file path: what follows the last `.` of its final
/// segment, when that dot is not the segment's first character and the
/// segment is not `..`.
pub open spec fn path_extension(path: Seq<char>) -> Option<Seq<char>> {
    let segment = last_segment(path);
    let dot = last_dot(segment);
    if segment == seq!['.', '.'] || dot <= 0 {
        None
    } else {
        Some(segment.subrange(dot + 1, segment.len() as int))
    }
}

/// A path is relative when it does not start at the root `/`.
pub open spec fn is_relative(path: Seq<char>) -> bool {
    path.len() == 0 || path[0] != '/'
}

/// `relative` appended to `directory`, with one `/` between them unless
/// the directory is empty or already ends with one.
pub open spec fn join_path(directory: Seq<char>, relative: Seq<char>) -> Seq<char> {
    if directory.len() == 0 || directory.last() == '/' {
        directory + relative
    } else {
        directory + seq!['/'] + relative
    }
}

/// Name of the managed copy of an image layer's file:
/// `image-layer-<id>.<extension>`, with `img` for a file without one.
pub open spec fn asset_file_name(id: LayerId, source: Seq<char>) -> Seq<char> {
    let extension = match path_extension(source) {
        Some(extension) => extension,
        None => seq!['i', 'm', 'g'],
    };
    "image-layer-"@ + decimal(id as nat) + seq!['.'] + extension
}

/// Where a managed theme records an image layer's file, relative to the
/// theme file.
pub open spec fn managed_source(id: LayerId, source: Seq<char>) -> Seq<char> {
    "assets/"@ + asset_file_name(id, source)
}

/// `after` is `before` as a managed theme stores it: an image layer's
/// file is named by `managed_source`, everything else is kept.
pub open spec fn is_managed_layer(before: Layer, after: Layer) -> bool {
    match before {
        Layer::Image(image) => after matches Layer::Image(stored) && stored == (ImageLayer {
            source: stored.source,
            ..image
        }) && stored.source@ == managed_source(image.id, image.source@),
        other => after == other,
    }
}

/// `after` is `before` as read back from a managed theme in `directory`:
/// a relative image path is resolved against the directory.
pub open spec fn is_loaded_layer(before: Layer, after: Layer, directory: Seq<char>) -> bool {
    match before {
        Layer::Image(image) => after matches Layer::Image(loaded) && loaded == (ImageLayer {
            source: loaded.source,
            ..image
        }) && loaded.source@ == if is_relative(image.source@) {
            join_path(directory, image.source@)
        } else {
            image.source@
        },
        other => after == other,
    }
}

/// Layer-by-layer form of a relation on single layers.
pub open spec fn all_managed(before: Seq<Layer>, after: Seq<Layer>) -> bool {
    &&& after.len() == before.len()
    &&& forall|i: int| 0 <= i < before.len() ==> is_managed_layer(#[trigger] before[i], after[i])
}

/// Layer-by-layer form of `is_loaded_layer`.
pub open spec fn all_loaded(before: Seq<Layer>, after: Seq<Layer>, directory: Seq<char>) -> bool {
    &&& after.len() == before.len()
    &&& forall|i: int|
        0 <= i < before.len() ==> is_loaded_layer(#[trigger] before[i], after[i], directory)
}

/// The extension of a path, by the rule of `path_extension`.
pub fn extension_of(path: &Vec<char>) -> (extension: Option<Vec<char>>)
    ensures
        match extension {
            Some(e) => path_extension(path@) == Some(e@),
            None => path_extension(path@) is None,
        },
{
    let n = path.len();
    let mut start = n;
    while start > 0 && path[start - 1] != '/'
        invariant
            start <= n,
            n == path@.len(),
            forall|k: int| start <= k < n ==> path@[k] != '/',
        decreases start,
    {
        start = start - 1;
    }
    proof {
        lemma_segment_start(path@, start as int);
    }
    let ghost segment = last_segment(path@);
    let mut i = n;
    while i > start && path[i - 1] != '.'
        invariant
            start <= i <= n,
            n == path@.len(),
            segment == path@.subrange(start as int, n as int),
            forall|k: int| i <= k < n ==> path@[k] != '.',
        decreases i,
    {
        i = i - 1;
    }
    let found = i > start;
    let dot: usize = if found { i - 1 } else { n };
    let ghost relative_dot: int = if found { dot - start } else { -1 };
    proof {
        assert forall|k: int| relative_dot < k < segment.len() implies segment[k] != '.' by {
            assert(segment[k] == path@[start + k]);
        }
        lemma_last_dot(segment, relative_dot);
    }
    let is_parent = n - start == 2 && path[start] == '.' && path[start + 1] == '.';
    proof {
        if is_parent {
            assert(segment =~= seq!['.', '.']);
        } else if segment =~= seq!['.', '.'] {
            assert(path@[start as int] == segment[0]);
            assert(path@[start + 1] == segment[1]);
        }
    }
    if is_parent || !found || dot == start {
        return None;
    }
    let mut extension: Vec<char> = Vec::new();
    let mut k = dot + 1;
    while k < n
        invariant
            dot + 1 <= k <= n,
            n == path@.len(),
            extension@ == path@.subrange(dot + 1, k as int),
        decreases n - k,
    {
        extension.push(path[k]);
        k = k + 1;
        assert(extension@ =~= path@.subrange(dot + 1, k as int));
    }
    assert(extension@ =~= segment.subrange(relative_dot + 1, segment.len() as int));
    Some(extension)
}

/// The file name `asset_file_name(id, source)`.
pub fn asset_file_name_string(id: LayerId, source: &str) -> (name: String)
    ensures
        name@ == asset_file_name(id, source@),
{
    let chars = chars_of(source);
    let mut name = String::new();
    push_str(&mut name, "image-layer-");
    push_decimal(&mut name, id);
    push_char(&mut name, '.');
    match extension_of(&chars) {
        Some(extension) => {
            let text = string_of(&extension);
            push_str(&mut name, text.as_str());
        },
        None => {
            push_str(&mut name, "img");
            proof {
                reveal_strlit("img");
            }
        },
    }
    assert(name@ =~= asset_file_name(id, source@));
    name
}

/// The path `managed_source(id, source)`.
pub fn managed_source_string(id: LayerId, source: &str) -> (path: String)
    ensures
        path@ == managed_source(id, source@),
{
    let mut path = String::new();
    push_str(&mut path, "assets/");
    let name = asset_file_name_string(id, source);
    push_str(&mut path, name.as_str());
    assert(path@ =~= managed_source(id, source@));
    path
}

/// `relative` joined to `directory` by the rule of `join_path`.
pub fn join_path_string(directory: &str, relative: &str) -> (path: String)
    ensures
        path@ == join_path(directory@, relative@),
{
    let mut path = String::new();
    push_str(&mut path, directory);
    let n = directory.unicode_len();
    if n > 0 && directory.get_char(n - 1) != '/' {
        push_char(&mut path, '/');
    }
    push_str(&mut path, relative);
    assert(path@ =~= join_path(directory@, relative@));
    path
}

/// Whether a path is relative (does not start with `/`).
pub fn path_is_relative(path: &str) -> (relative: bool)
    ensures
        relative == is_relative(path@),
{
    path.unicode_len() == 0 || path.get_char(0) != '/'
}

impl ThemeDocument {
    /// A document in the current format whose images are external files.
    pub fn new(name: &str, scene: Scene) -> (document: ThemeDocument)
        ensures
            document.format_version == CURRENT_THEME_FORMAT_VERSION,
            document.name@ == name@,
            document.asset_mode == AssetMode::External,
            document.scene == scene,
    {
        ThemeDocument {
            format_version: CURRENT_THEME_FORMAT_VERSION,
            name: name.to_owned(),
            asset_mode: AssetMode::External,
            scene,
        }
    }

    /// The document as it is stored in managed form: the asset mode is
    /// `Managed` and every image layer names its copy under `assets/`.
    pub fn to_managed(&self) -> (stored: ThemeDocument)
        ensures
            stored.format_version == self.format_version,
            stored.name == self.name,
            stored.asset_mode == AssetMode::Managed,
            stored.scene.name == self.scene.name,
            stored.scene.spec_next_layer_id() == self.scene.spec_next_layer_id(),
            all_managed(self.scene.layers@, stored.scene.layers@),
    {
        let mut scene = self.scene.clone();
        let ghost before = scene.layers@;
        let mut i: usize = 0;
        while i < scene.layers.len()
            invariant
                i <= scene.layers.len(),
                scene.layers@.len() == before.len(),
                before == self.scene.layers@,
                scene.name == self.scene.name,
                scene.spec_next_layer_id() == self.scene.spec_next_layer_id(),
                forall|k: int| 0 <= k < i ==> is_managed_layer(#[trigger] before[k], scene.layers@[k]),
                forall|k: int| i <= k < before.len() ==> scene.layers@[k] == #[trigger] before[k],
            decreases scene.layers.len() - i,
        {
            let replacement = match &scene.layers[i] {
                Layer::Image(image) => {
                    let mut stored = image.clone();
                    stored.source = managed_source_string(image.id, image.source.as_str());
                    Some(stored)
                },
                _ => None,
            };
            match replacement {
                Some(stored) => {
                    scene.layers.set(i, Layer::Image(stored));
                },
                None => {},
            }
            i = i + 1;
        }
        ThemeDocument {
            format_version: self.format_version,
            name: self.name.clone(),
            asset_mode: AssetMode::Managed,
            scene,
        }
    }

    /// Completes a document read from storage: checks the format version,
    /// restores the layer-identifier counter and, for a managed theme in
    /// `directory`, resolves relative image paths against that directory.
    pub fn prepare_loaded(self, directory: &str) -> (result: Result<ThemeDocument, ThemeError>)
        requires
            self.format_version == CURRENT_THEME_FORMAT_VERSION ==> ids_below(
                self.scene.layers@,
                LayerId::MAX,
            ),
        ensures
            self.format_version != CURRENT_THEME_FORMAT_VERSION <==> result is Err,
            result matches Err(error) ==> error == (ThemeError::UnsupportedVersion {
                expected: CURRENT_THEME_FORMAT_VERSION,
                actual: self.format_version,
            }),
            result matches Ok(document) ==> {
                &&& document.format_version == self.format_version
                &&& document.name == self.name
                &&& document.asset_mode == self.asset_mode
                &&& document.scene.name == self.scene.name
                &&& document.scene.spec_next_layer_id() == max_id(self.scene.layers@) + 1
                &&& if self.asset_mode == AssetMode::Managed {
                    all_loaded(self.scene.layers@, document.scene.layers@, directory@)
                } else {
                    document.scene.layers@ == self.scene.layers@
                }
            },
    {
        if self.format_version != CURRENT_THEME_FORMAT_VERSION {
            return Err(
                ThemeError::UnsupportedVersion {
                    expected: CURRENT_THEME_FORMAT_VERSION,
                    actual: self.format_version,
                },
            );
        }
        let mut document = self;
        document.scene.rebuild_layer_ids();
        if document.asset_mode == AssetMode::Managed {
            let ghost before = document.scene.layers@;
            let mut i: usize = 0;
            while i < document.scene.layers.len()
                invariant
                    i <= document.scene.layers.len(),
                    document.scene.layers@.len() == before.len(),
                    before == self.scene.layers@,
                    document.format_version == self.format_version,
                    document.name == self.name,
                    document.asset_mode == self.asset_mode,
                    document.scene.name == self.scene.name,
                    document.scene.spec_next_layer_id() == max_id(self.scene.layers@) + 1,
                    forall|k: int|
                        0 <= k < i ==> is_loaded_layer(
                            #[trigger] before[k],
                            document.scene.layers@[k],
                            directory@,
                        ),
                    forall|k: int| i <= k < before.len() ==> document.scene.layers@[k] == #[trigger] before[k],
                decreases document.scene.layers.len() - i,
            {
                let replacement = match &document.scene.layers[i] {
                    Layer::Image(image) => {
                        if path_is_relative(image.source.as_str()) {
                            let mut loaded = image.clone();
                            loaded.source = join_path_string(directory, image.source.as_str());
                            Some(loaded)
                        } else {
                            None
                        }
                    },
                    _ => None,
                };
                match replacement {
                    Some(loaded) => {
                        document.scene.layers.set(i, Layer::Image(loaded));
                    },
                    None => {},
                }
                i = i + 1;
            }
        }
        Ok(document)
    }
}

/// Storing a theme in managed form and reading it back from `directory`
/// gives every image layer the path of its managed copy inside that
/// directory and changes nothing else.
pub proof fn law_managed_round_trip(
    edited: Seq<Layer>,
    stored: Seq<Layer>,
    loaded: Seq<Layer>,
    directory: Seq<char>,
)
    requires
        all_managed(edited, stored),
        all_loaded(stored, loaded, directory),
    ensures
        loaded.len() == edited.len(),
        forall|i: int|
            0 <= i < edited.len() ==> match #[trigger] edited[i] {
                Layer::Image(image) => loaded[i] matches Layer::Image(back) && back == (ImageLayer {
                    source: back.source,
                    ..image
                }) && back.source@ == join_path(directory, managed_source(image.id, image.source@)),
                other => loaded[i] == other,
            },
{
    reveal_strlit("assets/");
    assert forall|i: int| 0 <= i < edited.len() implies match #[trigger] edited[i] {
        Layer::Image(image) => loaded[i] matches Layer::Image(back) && back == (ImageLayer {
            source: back.source,
            ..image
        }) && back.source@ == join_path(directory, managed_source(image.id, image.source@)),
        other => loaded[i] == other,
    } by {
        assert(is_managed_layer(edited[i], stored[i]));
        assert(is_loaded_layer(stored[i], loaded[i], directory));
        match edited[i] {
            Layer::Image(image) => {
                let s = managed_source(image.id, image.source@);
                assert(s[0] == 'a');
            },
            _ => {},
        }
    }
}

} // verus!
