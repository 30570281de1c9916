//! The conventions of the icon sets: which files of a set are icons, and how
//! an icon is named after its file.

use crate::casing::{to_upper_camel_case, upper_camel_case};
use crate::text::{before_first, ends_with, split_before_first, text_eq};
use vstd::prelude::*;
use vstd::std_specs::iter::IteratorSpec;

verus! {

/// The convention of an icon set, chosen by the prefix of its icons' names.
#[derive(Clone, Copy, Debug, PartialEq, Eq)]
pub enum Dialect {
    /// Any other prefix: the icons are the files with the extension `svg`,
    /// each named after its file.
    Generic,
    /// Prefix `Go`: the icons are the files whose names end in `-16.svg`.
    Octicons,
    /// Prefix `Md`: the icons are the files `24px.svg` below a directory
    /// `materialicons`, named after the directory three levels up.
    Material,
    /// Prefix `Io`: files as in `Generic`; a fixed style fragment is taken out
    /// of attribute values.
    Ionicons,
}

/// Why a file gives no icon.
#[derive(Clone, Copy, Debug, PartialEq, Eq)]
pub enum IconError {
    /// The path has no segment, so no file name.
    NoFileName,
    /// The file name holds no `.`, so no extension.
    NoExtension,
    /// The path has fewer than the three segments that naming needs.
    MissingAncestor,
    /// The text of the file is longer than the parser takes.
    MarkupTooLong,
    /// The parser's walk through the markup is not that of one tree.
    MalformedMarkup,
    /// The markup holds no `svg` element with a child.
    NoSvgRoot,
    /// The `svg` element has no `viewBox`.
    MissingViewBox,
}

/// A path, as the sequence of its segments from the outermost directory to
/// the file name.
#[derive(Debug, PartialEq, Eq)]
pub struct SourcePath {
    pub segments: Vec<String>,
}

impl View for SourcePath {
    type V = Seq<Seq<char>>;

    open spec fn view(&self) -> Seq<Seq<char>> {
        self.segments@.map_values(|s: String| s@)
    }
}

/// The views of a sequence of paths.
pub open spec fn path_views(paths: Seq<SourcePath>) -> Seq<Seq<Seq<char>>> {
    paths.map_values(|p: SourcePath| p@)
}

impl Dialect {
    /// The dialect that an icon prefix stands for.
    pub open spec fn of_prefix(prefix: Seq<char>) -> Dialect {
        if prefix == "Go"@ {
            Dialect::Octicons
        } else if prefix == "Md"@ {
            Dialect::Material
        } else if prefix == "Io"@ {
            Dialect::Ionicons
        } else {
            Dialect::Generic
        }
    }

    /// The dialect that `icon_prefix` stands for.
    pub fn from_prefix(icon_prefix: &str) -> (d: Dialect)
        ensures
            d == Dialect::of_prefix(icon_prefix@),
    {
        if text_eq(icon_prefix, "Go") {
            Dialect::Octicons
        } else if text_eq(icon_prefix, "Md") {
            Dialect::Material
        } else if text_eq(icon_prefix, "Io") {
            Dialect::Ionicons
        } else {
            Dialect::Generic
        }
    }

    /// Whether the file at `path` is an icon of this dialect: for `Octicons`
    /// its name ends in `-16.svg`; for `Material` its name is `24px.svg` and
    /// one of the directories above it is `materialicons`; for the others its
    /// name ends in `.svg` and is more than that.
    pub open spec fn selects_spec(self, path: Seq<Seq<char>>) -> bool {
        path.len() > 0 && match self {
            Dialect::Octicons => "-16.svg"@.is_suffix_of(path.last()),
            Dialect::Material => path.last() == "24px.svg"@ && path.drop_last().contains(
                "materialicons"@,
            ),
            _ => ".svg"@.is_suffix_of(path.last()) && path.last() != ".svg"@,
        }
    }

    /// Whether the file at `path` is an icon of this dialect.
    pub fn selects(self, path: &SourcePath) -> (b: bool)
        ensures
            b == self.selects_spec(path@),
    {
        let n = path.segments.len();
        if n == 0 {
            return false;
        }
        let file_name = path.segments[n - 1].as_str();
        assert(path@.last() == file_name@);
        match self {
            Dialect::Octicons => ends_with(file_name, "-16.svg"),
            Dialect::Material => {
                if !text_eq(file_name, "24px.svg") {
                    return false;
                }
                let mut i: usize = 0;
                while i < n - 1
                    invariant
                        n == path.segments.len(),
                        self == Dialect::Material,
                        path@.last() == "24px.svg"@,
                        i <= n - 1,
                        forall|j: int| 0 <= j < i ==> path@[j] != "materialicons"@,
                    decreases n - 1 - i,
                {
                    if text_eq(path.segments[i].as_str(), "materialicons") {
                        assert(path@.drop_last()[i as int] == "materialicons"@);
                        return true;
                    }
                    i += 1;
                }
                assert forall|j: int| 0 <= j < path@.drop_last().len() implies path@.drop_last()[j]
                    != "materialicons"@ by {
                    assert(path@.drop_last()[j] == path@[j]);
                }
                false
            },
            _ => ends_with(file_name, ".svg") && !text_eq(file_name, ".svg"),
        }
    }

    /// The place, in a path of `count` segments, of the segment that an icon
    /// is named after: for `Material` the third from the end, for the others
    /// the last, which is the file name; none where the path is shorter.
    pub open spec fn naming_segment_spec(self, count: int) -> Option<int> {
        if self == Dialect::Material {
            if count < 3 {
                None
            } else {
                Some(count - 3)
            }
        } else if count < 1 {
            None
        } else {
            Some(count - 1)
        }
    }

    /// The place, in a path of `count` segments, of the segment that an icon
    /// is named after.
    pub fn naming_segment(self, count: usize) -> (r: Option<usize>)
        ensures
            r is Some <==> self.naming_segment_spec(count as int) is Some,
            r matches Some(i) ==> self.naming_segment_spec(count as int) == Some(i as int) && i
                < count,
    {
        match self {
            Dialect::Material => if count < 3 {
                None
            } else {
                Some(count - 3)
            },
            _ => if count < 1 {
                None
            } else {
                Some(count - 1)
            },
        }
    }

    /// The text that an icon of the file at `path` is named after. It is
    /// taken from the naming segment: for `Material` the segment itself; for
    /// the others the file name up to its first `.`, for `Octicons` without
    /// `-16` at its end. A path without naming segment gives `MissingAncestor`
    /// for `Material` and `NoFileName` for the others; a file name without `.`
    /// gives `NoExtension`.
    pub open spec fn name_source_spec(self, path: Seq<Seq<char>>) -> Result<Seq<char>, IconError> {
        match self.naming_segment_spec(path.len() as int) {
            None => if self == Dialect::Material {
                Err(IconError::MissingAncestor)
            } else {
                Err(IconError::NoFileName)
            },
            Some(i) => if self == Dialect::Material {
                Ok(path[i])
            } else if !path[i].contains('.') {
                Err(IconError::NoExtension)
            } else {
                let stem = before_first(path[i], '.');
                if self == Dialect::Octicons {
                    Ok(without_suffix(stem, "-16"@))
                } else {
                    Ok(stem)
                }
            },
        }
    }

    /// The text that an icon of the file at `path` is named after, or why
    /// there is none.
    pub fn name_source(self, path: &SourcePath) -> (r: Result<String, IconError>)
        ensures
            match (r, self.name_source_spec(path@)) {
                (Ok(name), Ok(expected)) => name@ == expected,
                (Err(e), Err(expected)) => e == expected,
                _ => false,
            },
    {
        let at = match self.naming_segment(path.segments.len()) {
            Some(at) => at,
            None => {
                return match self {
                    Dialect::Material => Err(IconError::MissingAncestor),
                    _ => Err(IconError::NoFileName),
                };
            },
        };
        let segment = path.segments[at].as_str();
        assert(path@[at as int] == segment@);
        match self {
            Dialect::Material => Ok(String::from_str(segment)),
            _ => match split_before_first(segment, '.') {
                None => Err(IconError::NoExtension),
                Some(stem) => match self {
                    Dialect::Octicons => Ok(strip_suffix(stem, "-16")),
                    _ => Ok(String::from_str(stem)),
                },
            },
        }
    }

    /// The name of the icon of the file at `path`: what it is named after, in
    /// upper camel case.
    pub open spec fn icon_name_spec(self, path: Seq<Seq<char>>) -> Result<Seq<char>, IconError> {
        match self.name_source_spec(path) {
            Ok(source) => Ok(upper_camel_case(source)),
            Err(e) => Err(e),
        }
    }
}

/// `s` without `suffix` at its end, where it ends so.
pub open spec fn without_suffix(s: Seq<char>, suffix: Seq<char>) -> Seq<char> {
    if suffix.is_suffix_of(s) {
        s.take(s.len() - suffix.len())
    } else {
        s
    }
}

fn strip_suffix(s: &str, suffix: &str) -> (r: String)
    ensures
        r@ == without_suffix(s@, suffix@),
{
    if ends_with(s, suffix) {
        let n = s.unicode_len();
        let m = suffix.unicode_len();
        assert(s@.subrange(0, n - m) =~= s@.take(n - m));
        String::from_str(s.substring_char(0, n - m))
    } else {
        String::from_str(s)
    }
}

/// The name of the icon of the file at `path`, in upper camel case, for the
/// icon set with the prefix `icon_prefix`.
pub fn icon_name(path: &SourcePath, icon_prefix: &str) -> (r: Result<String, IconError>)
    ensures
        match (r, Dialect::of_prefix(icon_prefix@).icon_name_spec(path@)) {
            (Ok(name), Ok(expected)) => name@ == expected,
            (Err(e), Err(expected)) => e == expected,
            _ => false,
        },
{
    match Dialect::from_prefix(icon_prefix).name_source(path) {
        Ok(source) => Ok(to_upper_camel_case(source.as_str())),
        Err(e) => Err(e),
    }
}

/// The paths among `entries` that the dialect selects, in their order.
pub open spec fn discovered(entries: Seq<Seq<Seq<char>>>, dialect: Dialect) -> Seq<
    Seq<Seq<char>>,
> {
    entries.filter(|path: Seq<Seq<char>>| dialect.selects_spec(path))
}

/// The paths among `entries` that are icons of the set with the prefix
/// `icon_prefix`, in the order in which they came.
pub fn discover(entries: Vec<SourcePath>, icon_prefix: &str) -> (files: Vec<SourcePath>)
    ensures
        path_views(files@) == discovered(path_views(entries@), Dialect::of_prefix(icon_prefix@)),
{
    let dialect = Dialect::from_prefix(icon_prefix);
    let ghost all = path_views(entries@);
    let ghost keep = |path: Seq<Seq<char>>| dialect.selects_spec(path);
    let ghost given = entries@;
    let mut files: Vec<SourcePath> = Vec::new();
    assert(all.take(0) =~= Seq::<Seq<Seq<char>>>::empty());
    assert(path_views(files@) =~= Seq::<Seq<Seq<char>>>::empty());
    for entry in it: entries
        invariant
            it.seq() == given,
            all == path_views(given),
            keep == |path: Seq<Seq<char>>| dialect.selects_spec(path),
            path_views(files@) == all.take(it.index() as int).filter(keep),
    {
        let ghost i = it.index() as int;
        let ghost before = path_views(files@);
        assert(all.take(i + 1).drop_last() =~= all.take(i));
        assert(all.take(i + 1).last() == entry@);
        reveal(Seq::filter);
        if dialect.selects(&entry) {
            files.push(entry);
            assert(path_views(files@) =~= before.push(entry@));
        }
    }
    assert(all.take(all.len() as int) =~= all);
    files
}

/// Of the entries of a directory, the files that give icons are those that
/// the dialect selects, and no others: every discovered path is an entry that
/// the dialect selects, every entry that it selects is discovered, and there
/// are as many discovered paths as entries that it selects.
pub proof fn lemma_discovered_are_the_selected(entries: Seq<Seq<Seq<char>>>, dialect: Dialect)
    ensures
        forall|i: int|
            0 <= i < discovered(entries, dialect).len() ==> dialect.selects_spec(
                #[trigger] discovered(entries, dialect)[i],
            ) && entries.contains(discovered(entries, dialect)[i]),
        forall|i: int|
            0 <= i < entries.len() && dialect.selects_spec(entries[i]) ==> discovered(
                entries,
                dialect,
            ).contains(#[trigger] entries[i]),
        discovered(entries, dialect).len() == selected_count(entries, dialect),
    decreases entries.len(),
{
    let keep = |path: Seq<Seq<char>>| dialect.selects_spec(path);
    let found = entries.filter(keep);
    reveal(Seq::filter);
    if entries.len() > 0 {
        let rest = entries.drop_last();
        let before = rest.filter(keep);
        lemma_discovered_are_the_selected(rest, dialect);
        assert forall|i: int| 0 <= i < found.len() implies dialect.selects_spec(
            #[trigger] found[i],
        ) && entries.contains(found[i]) by {
            if i < before.len() {
                assert(found[i] == before[i]);
                assert(rest.contains(before[i]));
                let j = choose|j: int| 0 <= j < rest.len() && rest[j] == before[i];
                assert(entries[j] == found[i]);
            } else {
                assert(found[i] == entries.last());
            }
        }
        assert forall|i: int|
            0 <= i < entries.len() && dialect.selects_spec(entries[i]) implies found.contains(
            #[trigger] entries[i],
        ) by {
            if i < rest.len() {
                assert(before.contains(rest[i]));
                let j = choose|j: int| 0 <= j < before.len() && before[j] == rest[i];
                assert(found[j] == entries[i]);
            } else {
                assert(found[found.len() - 1] == entries[i]);
            }
        }
    }
}

/// How many of `entries` the dialect selects.
pub open spec fn selected_count(entries: Seq<Seq<Seq<char>>>, dialect: Dialect) -> nat
    decreases entries.len(),
{
    if entries.len() == 0 {
        0
    } else {
        selected_count(entries.drop_last(), dialect) + if dialect.selects_spec(entries.last()) {
            1nat
        } else {
            0nat
        }
    }
}

} // verus!
