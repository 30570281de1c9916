//! The generated source: one definition for each icon, after a fixed head.

use crate::attributes::FilterConfig;
use crate::dialect::{IconError, SourcePath};
use crate::extract::{icon_of_markup, parse_and_extract, ExtractedIcon, IconModel};
use crate::text::{join_texts, joined, text_views, trim, trim_end, trimmed, trimmed_end};
use vstd::prelude::*;

verus! {

/// The method of a generated definition that answers `value` under `name`.
pub open spec fn accessor(name: Seq<char>, value: Seq<char>) -> Seq<char> {
    "    fn "@ + name + "(&self) -> &str {\n        \""@ + value + "\"\n    }\n"@
}

/// The definition generated for an icon: a type without fields under the
/// icon's name, and for it the shape's methods: one for each presentation
/// attribute, one for the title without the white space around it, and one
/// that gives the blocks, without the white space at their end.
pub open spec fn icon_block(icon: IconModel) -> Seq<char> {
    "#[derive(Copy, Clone, Debug, PartialEq)]\npub struct "@ + icon.name
        + ";\nimpl IconShape for "@ + icon.name + " {\n"@ + accessor("view_box"@, icon.view_box)
        + accessor("width"@, icon.width) + accessor("height"@, icon.height) + accessor(
        "xmlns"@,
        icon.xmlns,
    ) + accessor("fill"@, icon.fill) + accessor("stroke"@, icon.stroke) + accessor(
        "stroke_width"@,
        icon.stroke_width,
    ) + accessor("stroke_linecap"@, icon.stroke_linecap) + accessor(
        "stroke_linejoin"@,
        icon.stroke_linejoin,
    ) + accessor("title"@, trimmed(icon.title))
        + "    fn child_elements(&self) -> Element {\n        rsx! {\n"@ + trimmed_end(icon.body)
        + "\n        }\n    }\n}\n"@
}

fn append_accessor(out: &mut String, name: &str, value: &str)
    ensures
        final(out)@ == old(out)@ + accessor(name@, value@),
{
    let ghost start = out@;
    out.append("    fn ");
    out.append(name);
    out.append("(&self) -> &str {\n        \"");
    out.append(value);
    out.append("\"\n    }\n");
    assert(out@ =~= start + accessor(name@, value@));
}

/// The definition generated for `icon`.
pub fn render_icon(icon: &ExtractedIcon) -> (r: String)
    ensures
        r@ == icon_block(icon@),
{
    let mut out = String::from_str("#[derive(Copy, Clone, Debug, PartialEq)]\npub struct ");
    out.append(icon.name.as_str());
    out.append(";\nimpl IconShape for ");
    out.append(icon.name.as_str());
    out.append(" {\n");
    append_accessor(&mut out, "view_box", icon.view_box.as_str());
    append_accessor(&mut out, "width", icon.width.as_str());
    append_accessor(&mut out, "height", icon.height.as_str());
    append_accessor(&mut out, "xmlns", icon.xmlns.as_str());
    append_accessor(&mut out, "fill", icon.fill.as_str());
    append_accessor(&mut out, "stroke", icon.stroke.as_str());
    append_accessor(&mut out, "stroke_width", icon.stroke_width.as_str());
    append_accessor(&mut out, "stroke_linecap", icon.stroke_linecap.as_str());
    append_accessor(&mut out, "stroke_linejoin", icon.stroke_linejoin.as_str());
    append_accessor(&mut out, "title", trim(icon.title.as_str()));
    out.append("    fn child_elements(&self) -> Element {\n        rsx! {\n");
    out.append(trim_end(icon.body.as_str()));
    out.append("\n        }\n    }\n}\n");
    out
}

/// The definitions generated for the icons, in order.
pub open spec fn icon_blocks(icons: Seq<IconModel>) -> Seq<Seq<char>> {
    icons.map_values(|icon: IconModel| icon_block(icon))
}

/// The views of a sequence of icons.
pub open spec fn icon_views(icons: Seq<ExtractedIcon>) -> Seq<IconModel> {
    icons.map_values(|icon: ExtractedIcon| icon@)
}

/// The generated source for the icons: the two imports, an empty line, and
/// the definitions of the icons in order, each two an empty line apart.
pub open spec fn emitted(icons: Seq<IconModel>) -> Seq<char> {
    "use super::super::IconShape;\nuse dioxus::prelude::*;"@ + "\n\n"@ + joined(
        icon_blocks(icons),
        "\n"@,
    )
}

/// The generated source for `icons`.
pub fn emit(icons: &Vec<ExtractedIcon>) -> (r: String)
    ensures
        r@ == emitted(icon_views(icons@)),
{
    let mut blocks: Vec<String> = Vec::new();
    let ghost all = icon_blocks(icon_views(icons@));
    let mut i: usize = 0;
    while i < icons.len()
        invariant
            i <= icons.len(),
            all == icon_blocks(icon_views(icons@)),
            text_views(blocks@) =~= all.take(i as int),
        decreases icons.len() - i,
    {
        let ghost before = text_views(blocks@);
        assert(all[i as int] == icon_block(icons@[i as int]@));
        let block = render_icon(&icons[i]);
        blocks.push(block);
        assert(text_views(blocks@) =~= before.push(block@));
        assert(all.take(i + 1) =~= all.take(i as int).push(all[i as int]));
        i += 1;
    }
    assert(all.take(all.len() as int) =~= all);
    let mut out = String::from_str("use super::super::IconShape;\nuse dioxus::prelude::*;");
    out.append("\n\n");
    out.append(join_texts(&blocks, "\n").as_str());
    out
}

/// A file to make an icon of: where it lies, and what it holds.
#[derive(Debug, PartialEq, Eq)]
pub struct SourceFile {
    pub path: SourcePath,
    pub content: String,
}

/// What a `SourceFile` is, as mathematics.
pub struct FileModel {
    pub path: Seq<Seq<char>>,
    pub content: Seq<char>,
}

impl View for SourceFile {
    type V = FileModel;

    open spec fn view(&self) -> FileModel {
        FileModel { path: self.path@, content: self.content@ }
    }
}

/// The views of a sequence of files.
pub open spec fn file_views(files: Seq<SourceFile>) -> Seq<FileModel> {
    files.map_values(|file: SourceFile| file@)
}

/// The file that gave no icon, by its place among the files, and why.
#[derive(Clone, Copy, Debug, PartialEq, Eq)]
pub struct GenerateError {
    pub index: usize,
    pub error: IconError,
}

/// The generated source, and of how many icons it is.
#[derive(Debug, PartialEq, Eq)]
pub struct Generated {
    pub text: String,
    pub icons: usize,
}

/// The icon of a file, for the icon set with the prefix `prefix`.
pub open spec fn icon_of_file(file: FileModel, prefix: Seq<char>, config: FilterConfig) -> Result<
    IconModel,
    IconError,
> {
    icon_of_markup(file.content, file.path, prefix, config)
}

/// The icons of the files in order, where every file gives one.
pub open spec fn icons_of_files(files: Seq<FileModel>, prefix: Seq<char>, config: FilterConfig) -> Seq<
    IconModel,
> {
    files.map_values(|file: FileModel| icon_of_file(file, prefix, config)->Ok_0)
}

/// The generated source for the icons of `files`, in their order, for the
/// icon set with the prefix `icon_prefix`.
///
/// The text is a function of the files, the prefix and the configuration
/// alone: the same files in the same order give the same text, character for
/// character. One file that gives no icon fails the whole: the error names
/// the first such file.
pub fn generate(files: &Vec<SourceFile>, icon_prefix: &str, config: &FilterConfig) -> (r: Result<
    Generated,
    GenerateError,
>)
    ensures
        match r {
            Ok(generated) => {
                &&& forall|i: int|
                    0 <= i < files.len() ==> (#[trigger] icon_of_file(
                        files@[i]@,
                        icon_prefix@,
                        *config,
                    )) is Ok
                &&& generated.icons == files.len()
                &&& generated.text@ == emitted(
                    icons_of_files(file_views(files@), icon_prefix@, *config),
                )
            },
            Err(e) => {
                &&& e.index < files.len()
                &&& icon_of_file(files@[e.index as int]@, icon_prefix@, *config) == Err::<
                    IconModel,
                    IconError,
                >(e.error)
                &&& forall|i: int|
                    0 <= i < e.index ==> (#[trigger] icon_of_file(
                        files@[i]@,
                        icon_prefix@,
                        *config,
                    )) is Ok
            },
        },
{
    let mut icons: Vec<ExtractedIcon> = Vec::new();
    let ghost all = icons_of_files(file_views(files@), icon_prefix@, *config);
    let mut i: usize = 0;
    while i < files.len()
        invariant
            i <= files.len(),
            all == icons_of_files(file_views(files@), icon_prefix@, *config),
            icon_views(icons@) =~= all.take(i as int),
            forall|j: int|
                0 <= j < i ==> (#[trigger] icon_of_file(files@[j]@, icon_prefix@, *config)) is Ok,
        decreases files.len() - i,
    {
        let file = &files[i];
        let ghost before = icon_views(icons@);
        assert(all[i as int] == icon_of_file(files@[i as int]@, icon_prefix@, *config)->Ok_0);
        assert(all.take(i + 1) =~= all.take(i as int).push(all[i as int]));
        match parse_and_extract(file.content.as_str(), &file.path, icon_prefix, config) {
            Ok(icon) => {
                icons.push(icon);
                assert(icon_views(icons@) =~= before.push(icon@));
            },
            Err(error) => {
                return Err(GenerateError { index: i, error });
            },
        }
        i += 1;
    }
    assert(all.take(all.len() as int) =~= all);
    Ok(Generated { text: emit(&icons), icons: icons.len() })
}

} // verus!
