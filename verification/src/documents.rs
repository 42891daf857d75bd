use vstd::prelude::*;
use vstd::string::StringExecFns;
use crate::chars::{lowercase, to_lowercase};
use crate::text::str_eq;

verus! {

/// What stands for a table in the text of a document.
pub const TABLE_NOTE: &'static str = "[Table content not extracted]\n";

/// How the text of a file is got at.
#[derive(Debug, Clone, Copy, PartialEq, Eq, Structural)]
pub enum DocumentKind {
    Pdf,
    Docx,
    Text,
}

/// A piece of a document's body.
#[derive(Debug, Clone)]
pub enum DocumentPart {
    /// A paragraph with this text.
    Paragraph(String),
    /// A table.
    Table,
    /// Anything else.
    Other,
}

/// What a piece of a document is, mathematically.
pub enum PartModel {
    Paragraph(Seq<char>),
    Table,
    Other,
}

impl View for DocumentPart {
    type V = PartModel;

    open spec fn view(&self) -> PartModel {
        match self {
            DocumentPart::Paragraph(text) => PartModel::Paragraph(text@),
            DocumentPart::Table => PartModel::Table,
            DocumentPart::Other => PartModel::Other,
        }
    }
}

/// The models of a vector of pieces.
pub open spec fn part_models(parts: Seq<DocumentPart>) -> Seq<PartModel> {
    Seq::new(parts.len(), |i: int| parts[i]@)
}

/// How the text of a file with the given extension is got at: as a PDF or
/// a DOCX document where the extension, in lowercase, says so, as text else.
pub open spec fn kind_of(extension: Option<Seq<char>>) -> DocumentKind {
    match extension {
        Some(e) => if lowercase(e) == "pdf"@ {
            DocumentKind::Pdf
        } else if lowercase(e) == "docx"@ {
            DocumentKind::Docx
        } else {
            DocumentKind::Text
        },
        None => DocumentKind::Text,
    }
}

/// How the text of a file with the given extension is got at.
pub fn document_kind(extension: Option<&str>) -> (kind: DocumentKind)
    ensures
        kind == kind_of(
            match extension {
                Some(e) => Some(e@),
                None => None,
            },
        ),
{
    match extension {
        Some(e) => {
            let lower = to_lowercase(e);
            if str_eq(lower.as_str(), "pdf") {
                DocumentKind::Pdf
            } else if str_eq(lower.as_str(), "docx") {
                DocumentKind::Docx
            } else {
                DocumentKind::Text
            }
        },
        None => DocumentKind::Text,
    }
}

/// The text of the first `n` pieces of a document: each paragraph on a line
/// of its own, a note for each table, nothing for anything else.
pub open spec fn text_in(parts: Seq<PartModel>, n: int) -> Seq<char>
    decreases n,
{
    if n <= 0 {
        seq![]
    } else {
        text_in(parts, n - 1) + match parts[n - 1] {
            PartModel::Paragraph(text) => text + "\n"@,
            PartModel::Table => TABLE_NOTE@,
            PartModel::Other => seq![],
        }
    }
}

/// The text of a document's body.
pub open spec fn text_of(parts: Seq<PartModel>) -> Seq<char> {
    text_in(parts, parts.len() as int)
}

/// The text of a document's body.
pub fn document_text(parts: &Vec<DocumentPart>) -> (text: String)
    ensures
        text@ == text_of(part_models(parts@)),
{
    let ghost models = part_models(parts@);
    let mut text = String::new();
    let mut i: usize = 0;
    while i < parts.len()
        invariant
            i <= parts.len(),
            models == part_models(parts@),
            text@ == text_in(models, i as int),
        decreases parts.len() - i,
    {
        let ghost before = text@;
        assert(models[i as int] == parts[i as int]@);
        match &parts[i] {
            DocumentPart::Paragraph(paragraph) => {
                text.append(paragraph.as_str());
                text.append("\n");
                assert(text@ =~= before + (paragraph@ + "\n"@));
            },
            DocumentPart::Table => {
                text.append(TABLE_NOTE);
            },
            DocumentPart::Other => {
                assert(before + Seq::<char>::empty() =~= before);
            },
        }
        i += 1;
    }
    text
}

} // verus!
