use std::io::{Cursor, Read, Write};

use calamine::{open_workbook_auto_from_rs, Data, Reader};
use nucleus::error::NucleusError;
use nucleus::extract::{decoded_text, extraction_format, is_supported, plain_text, strip_docx_xml, Decoded, Format};
use zip::write::SimpleFileOptions;
use zip::{CompressionMethod, ZipWriter};

type Sheets = Vec<(String, Option<Vec<Vec<Option<String>>>>)>;

fn read_workbook(bytes: &[u8]) -> Result<Sheets, String> {
    let mut wb = open_workbook_auto_from_rs(Cursor::new(bytes.to_vec())).map_err(|e| format!("hoja de cálculo: {e}"))?;
    let names = wb.sheet_names().to_owned();
    Ok(names
        .into_iter()
        .map(|name| {
            let rows = wb.worksheet_range(&name).ok().map(|range| {
                range
                    .rows()
                    .map(|row| {
                        row.iter()
                            .map(|cell| match cell {
                                Data::Empty => None,
                                other => Some(other.to_string()),
                            })
                            .collect()
                    })
                    .collect()
            });
            (name, rows)
        })
        .collect())
}

fn read_docx_xml(bytes: &[u8]) -> Result<String, String> {
    let mut archive = zip::ZipArchive::new(Cursor::new(bytes.to_vec())).map_err(|e| format!("docx: {e}"))?;
    let mut file = archive.by_name("word/document.xml").map_err(|e| format!("docx sin word/document.xml: {e}"))?;
    let mut xml = String::new();
    file.read_to_string(&mut xml).map_err(|e| format!("docx ilegible: {e}"))?;
    Ok(xml)
}

/// The whole upload path: the library picks the format, the decoder runs, the
/// library turns its output into text.
fn extract_text(filename: &str, bytes: &[u8]) -> Result<String, NucleusError> {
    let decoded = match extraction_format(filename)? {
        Format::Plain => return Ok(plain_text(bytes)),
        Format::Html => html2text::from_read(bytes, 100).map(Decoded::Text).map_err(|e| format!("html: {e}")),
        Format::Pdf => pdf_extract::extract_text_from_mem(bytes)
            .map(Decoded::Text)
            .map_err(|e| format!("no se pudo extraer el PDF: {e}")),
        Format::Spreadsheet => read_workbook(bytes).map(Decoded::Sheets),
        Format::Docx => read_docx_xml(bytes).map(Decoded::DocumentXml),
    };
    decoded_text(decoded)
}

#[test]
fn plain_and_unsupported() {
    assert_eq!(extract_text("a.txt", b"hola  mundo\n\n\n x").unwrap(), "hola mundo\n\nx");
    assert_eq!(extract_text("a.md", b"# T\n\ntexto").unwrap(), "# T\n\ntexto");
    assert!(extract_text("a.doc", b"\xff\xfe").is_err());
    assert!(extract_text("a.zip", b"PK").is_err());
    assert!(is_supported("x.PDF"));
    assert!(!is_supported("x.doc"));
}

#[test]
fn docx_xml_stripping() {
    let xml = r#"<w:p><w:r><w:t>Hola</w:t></w:r></w:p><w:p><w:r><w:t>R&amp;D</w:t></w:r></w:p>"#;
    assert_eq!(strip_docx_xml(xml).split_whitespace().collect::<Vec<_>>(), vec!["Hola", "R&D"]);
}

#[test]
fn crlf_lines_and_trailing_blank_lines() {
    assert_eq!(extract_text("n.LOG", b"a\r\nb  c\r\n\r\n\r\n").unwrap(), "a\nb c");
}

#[test]
fn extension_is_text_after_last_dot() {
    assert!(is_supported("archive.tar.csv"));
    assert!(!is_supported("noextension"));
    assert!(is_supported("txt"));
    assert!(!is_supported("file."));
}

#[test]
fn unsupported_formats_are_invalid_requests() {
    assert!(matches!(extract_text("a.doc", b"x"), Err(NucleusError::InvalidRequest(_))));
    assert!(matches!(extract_text("a.exe", b"x"), Err(NucleusError::InvalidRequest(_))));
}

#[test]
fn broken_binary_formats_fail() {
    assert!(extract_text("a.pdf", b"not a pdf").is_err());
    assert!(extract_text("a.docx", b"not a zip").is_err());
    assert!(extract_text("a.xlsx", b"not a workbook").is_err());
}

#[test]
fn entities_unescape_in_order() {
    assert_eq!(strip_docx_xml("&amp;lt;&quot;&apos;&gt;"), "<\"'>");
}

#[test]
fn html_is_rendered_to_text() {
    let t = extract_text("p.html", b"<p>Hola <b>mundo</b></p>").unwrap();
    assert!(t.contains("Hola"));
    assert!(t.contains("mundo"));
    assert!(!t.contains("<p>"));
}

#[test]
fn invalid_utf8_is_replaced_in_plain_text() {
    assert_eq!(extract_text("a.txt", b"ok \xff end").unwrap(), "ok \u{fffd} end");
}

#[test]
fn docx_text_comes_from_the_document_part() {
    let mut w = ZipWriter::new(Cursor::new(Vec::new()));
    let opts = SimpleFileOptions::default().compression_method(CompressionMethod::Stored);
    w.start_file("word/document.xml", opts).unwrap();
    w.write_all(b"<w:document><w:body><w:p><w:r><w:t>Hola</w:t></w:r></w:p><w:p><w:r><w:t>R&amp;D</w:t></w:r></w:p></w:body></w:document>")
        .unwrap();
    let bytes = w.finish().unwrap().into_inner();
    assert_eq!(extract_text("informe.DOCX", &bytes).unwrap(), "Hola\nR&D");
}

#[test]
fn docx_without_document_part_fails() {
    let mut w = ZipWriter::new(Cursor::new(Vec::new()));
    w.start_file("other.xml", SimpleFileOptions::default().compression_method(CompressionMethod::Stored)).unwrap();
    w.write_all(b"<x/>").unwrap();
    let bytes = w.finish().unwrap().into_inner();
    assert!(matches!(extract_text("a.docx", &bytes), Err(NucleusError::InvalidRequest(_))));
}

#[test]
fn refusal_messages_name_the_format() {
    assert!(matches!(
        extract_text("Viejo.DOC", b"x"),
        Err(NucleusError::InvalidRequest(m)) if m == "formato .doc heredado no soportado; convierte a .docx o .pdf"
    ));
    assert!(matches!(
        extract_text("data.ZIP", b"PK"),
        Err(NucleusError::InvalidRequest(m)) if m == "formato no soportado: .zip"
    ));
}

#[test]
fn formats_follow_the_extension() {
    assert!(matches!(extraction_format("a.TXT"), Ok(Format::Plain)));
    assert!(matches!(extraction_format("a.htm"), Ok(Format::Html)));
    assert!(matches!(extraction_format("a.pdf"), Ok(Format::Pdf)));
    assert!(matches!(extraction_format("a.ods"), Ok(Format::Spreadsheet)));
    assert!(matches!(extraction_format("a.docx"), Ok(Format::Docx)));
    assert!(extraction_format("a.doc").is_err());
}

#[test]
fn decoder_failures_keep_their_message() {
    assert!(matches!(
        decoded_text(Err("docx: invalid".to_string())),
        Err(NucleusError::InvalidRequest(m)) if m == "docx: invalid"
    ));
}

#[test]
fn sheets_are_laid_out_row_by_row() {
    let sheets: Sheets = vec![
        ("Hoja1".to_string(), Some(vec![vec![Some("a".to_string()), None, Some("b".to_string())], vec![None, None]])),
        ("Rota".to_string(), None),
    ];
    assert_eq!(decoded_text(Ok(Decoded::Sheets(sheets))).unwrap(), "# Hoja1\na | | b\n|");
}

#[test]
fn document_xml_is_stripped_and_normalised() {
    let xml = "<w:p><w:t>Uno  dos</w:t></w:p><w:p></w:p><w:p></w:p><w:p><w:t>&lt;tres&gt;</w:t></w:p>";
    assert_eq!(decoded_text(Ok(Decoded::DocumentXml(xml.to_string()))).unwrap(), "Uno dos\n\n<tres>");
}

#[test]
fn valid_utf8_plain_text_is_kept() {
    assert_eq!(plain_text("ñandú  y\tcafé".as_bytes()), "ñandú y café");
}
