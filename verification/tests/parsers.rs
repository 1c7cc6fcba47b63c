use std::io::Write;

use ragcli::parser::code::CodeParser;
use ragcli::parser::docx::{extract_docx_text, DocxParser};
use ragcli::parser::excel::{render_workbook, ExcelParser, Sheet};
use ragcli::parser::pdf::PdfParser;
use ragcli::parser::plain_text::PlainTextParser;
use ragcli::parser::xml::{extract_xml_text, XmlParser};
use ragcli::parser::{parser_for, DocumentError, DocumentParser, ParserKind};

#[test]
fn selects_plain_text_parser_for_text_extensions() {
    assert!(parser_for("notes.txt").is_ok());
    assert!(parser_for("README.md").is_ok());
}

#[test]
fn selects_pdf_parser_for_pdf_files() {
    assert!(parser_for("report.pdf").is_ok());
}

#[test]
fn selects_office_parsers_for_word_and_excel_files() {
    assert!(parser_for("report.docx").is_ok());
    assert!(parser_for("data.xlsx").is_ok());
    assert!(parser_for("legacy.xls").is_ok());
}

#[test]
fn selects_xml_parser_for_xml_files() {
    assert!(parser_for("data.xml").is_ok());
}

#[test]
fn selects_code_parser_for_source_files() {
    assert!(parser_for("Main.java").is_ok());
    assert!(parser_for("script.py").is_ok());
    assert!(parser_for("build.gradle").is_ok());
    assert!(parser_for("deploy.sh").is_ok());
    assert!(parser_for("run.bat").is_ok());
}

#[test]
fn rejects_unknown_extensions() {
    assert!(parser_for("image.png").is_err());
    // Legacy binary .doc is not supported (docx only).
    assert!(parser_for("legacy.doc").is_err());
}

#[test]
fn parser_for_picks_the_matching_kind() {
    assert_eq!(parser_for("notes.txt").ok(), Some(ParserKind::PlainText));
    assert_eq!(parser_for("LICENSE").ok(), Some(ParserKind::PlainText));
    assert_eq!(parser_for("a/b/report.PDF").ok(), Some(ParserKind::Pdf));
    assert_eq!(parser_for("report.docx").ok(), Some(ParserKind::Docx));
    assert_eq!(parser_for("data.xlsb").ok(), Some(ParserKind::Excel));
    assert_eq!(parser_for("data.xml").ok(), Some(ParserKind::Xml));
    assert_eq!(parser_for("lib.rs").ok(), Some(ParserKind::Code));
}

#[test]
fn unsupported_error_names_the_path() {
    match parser_for("image.png") {
        Err(e) => {
            assert!(matches!(e, DocumentError::Unsupported(_)));
            assert_eq!(e.message(), "unsupported document type: image.png");
        }
        Ok(_) => panic!("image.png must be refused"),
    }
}

#[test]
fn supports_text_files_and_extensionless() {
    assert!(PlainTextParser.supports("a.txt"));
    assert!(PlainTextParser.supports("a.MD"));
    assert!(PlainTextParser.supports("LICENSE"));
    assert!(!PlainTextParser.supports("a.pdf"));
}

#[test]
fn extensions_follow_path_rules() {
    // a leading dot alone is no extension
    assert!(PlainTextParser.supports(".bashrc"));
    // the extension of the last component counts, after trailing slashes
    assert!(PdfParser.supports("dir.txt/report.pdf"));
    assert!(PdfParser.supports("report.pdf/"));
    assert!(PdfParser.supports("report.pdf/."));
    assert!(!PdfParser.supports("report.pdf/.."));
    assert!(CodeParser.supports("..py"));
}

#[test]
fn supports_common_source_extensions() {
    assert!(CodeParser.supports("Main.java"));
    assert!(CodeParser.supports("script.py"));
    assert!(CodeParser.supports("build.gradle"));
    assert!(CodeParser.supports("deploy.sh"));
    assert!(CodeParser.supports("run.BAT"));
}

#[test]
fn ignores_non_code_files() {
    assert!(!CodeParser.supports("report.pdf"));
    assert!(!CodeParser.supports("notes.txt"));
    // Extensionless files stay with PlainTextParser.
    assert!(!CodeParser.supports("LICENSE"));
}

#[test]
fn reads_file_contents_as_text() {
    assert_eq!(CodeParser.parse("script.py", b"print('hi')\n").unwrap(), "print('hi')\n");
}

#[test]
fn plain_text_replaces_invalid_utf8() {
    assert_eq!(PlainTextParser.parse("notes.txt", b"ok\xffok").unwrap(), "ok\u{fffd}ok");
}

#[test]
fn supports_only_docx_extension() {
    assert!(DocxParser.supports("report.docx"));
    assert!(DocxParser.supports("REPORT.DOCX"));
    assert!(!DocxParser.supports("legacy.doc"));
    assert!(!DocxParser.supports("notes.txt"));
    assert!(!DocxParser.supports("LICENSE"));
}

fn minimal_docx(body_xml: &str) -> Vec<u8> {
    let document = format!(
        r#"<?xml version="1.0" encoding="UTF-8" standalone="yes"?>
<w:document xmlns:w="http://schemas.openxmlformats.org/wordprocessingml/2006/main">
<w:body>{body_xml}</w:body>
</w:document>"#
    );
    let mut zip = zip::ZipWriter::new(std::io::Cursor::new(Vec::new()));
    zip.start_file("word/document.xml", zip::write::SimpleFileOptions::default())
        .unwrap();
    zip.write_all(document.as_bytes()).unwrap();
    zip.finish().unwrap().into_inner()
}

#[test]
fn parses_paragraphs_tabs_and_breaks() {
    let docx = minimal_docx(
        "<w:p><w:r><w:t>Hello</w:t></w:r><w:r><w:t xml:space=\"preserve\"> Word</w:t></w:r></w:p>\
         <w:p><w:r><w:t>Col1</w:t><w:tab/><w:t>Col2</w:t><w:br/><w:t>Line2</w:t></w:r></w:p>",
    );
    let result = DocxParser.parse("report.docx", &docx);
    assert_eq!(result.unwrap(), "Hello Word\n\nCol1\tCol2\nLine2");
}

#[test]
fn docx_resolves_entity_and_character_references() {
    let docx = minimal_docx("<w:p><w:r><w:t>A&amp;B &lt;ok&gt; caf&#233;</w:t></w:r></w:p>");
    let result = DocxParser.parse("report.docx", &docx);
    assert_eq!(result.unwrap(), "A&B <ok> café");
}

#[test]
fn ignores_text_outside_runs() {
    let docx = minimal_docx(
        "<w:p><w:pPr><w:instrText>PAGEREF _Toc1</w:instrText></w:pPr>\
         <w:r><w:t>Visible</w:t></w:r></w:p>",
    );
    let result = DocxParser.parse("report.docx", &docx);
    assert_eq!(result.unwrap(), "Visible");
}

#[test]
fn errors_on_non_docx_content() {
    let result = DocxParser.parse("report.docx", b"just plain text, not a zip");
    assert!(result.is_err());
    assert!(matches!(result, Err(DocumentError::NotZip(_, _))));
}

#[test]
fn errors_on_zip_without_document_xml() {
    let mut zip = zip::ZipWriter::new(std::io::Cursor::new(Vec::new()));
    zip.start_file("other.txt", zip::write::SimpleFileOptions::default())
        .unwrap();
    zip.write_all(b"nope").unwrap();
    let bytes = zip.finish().unwrap().into_inner();
    let result = DocxParser.parse("report.docx", &bytes);
    assert!(result.unwrap_err().message().contains("Word document"));
}

#[test]
fn docx_body_text_from_markup() {
    let xml = "<w:document xmlns:w=\"x\"><w:body><w:p><w:r><w:t>a&quot;b&apos;</w:t></w:r></w:p><w:p/></w:body></w:document>";
    assert_eq!(extract_docx_text(xml).unwrap(), "a\"b'");
}

#[test]
fn docx_rejects_malformed_char_ref() {
    let xml = "<w:p><w:r><w:t>bad &#0; ref</w:t></w:r></w:p>";
    assert!(matches!(extract_docx_text(xml), Err(DocumentError::MalformedBodyCharRef(_))));
}

#[test]
fn supports_only_xml_extension() {
    assert!(XmlParser.supports("data.xml"));
    assert!(XmlParser.supports("DATA.XML"));
    assert!(!XmlParser.supports("notes.txt"));
    assert!(!XmlParser.supports("report.docx"));
}

#[test]
fn strips_tags_from_nested_elements() {
    let xml = r#"<?xml version="1.0" encoding="UTF-8"?>
<root>
  <title>Hello World</title>
  <body>
    <p>First paragraph.</p>
    <p>Second paragraph.</p>
  </body>
</root>"#;
    let result = XmlParser.parse("data.xml", xml.as_bytes());
    assert_eq!(
        result.unwrap(),
        "Hello World\nFirst paragraph.\nSecond paragraph."
    );
}

#[test]
fn xml_resolves_entity_and_character_references() {
    let xml = "<root><item>A&amp;B &lt;ok&gt; caf&#233;</item></root>";
    let result = XmlParser.parse("data.xml", xml.as_bytes());
    assert_eq!(result.unwrap(), "A&B <ok> café");
}

#[test]
fn ignores_attribute_values() {
    let xml = r#"<root><item id="secret" class="hidden">Visible</item></root>"#;
    let result = XmlParser.parse("data.xml", xml.as_bytes());
    assert_eq!(result.unwrap(), "Visible");
}

#[test]
fn errors_on_malformed_xml() {
    let result = XmlParser.parse("data.xml", b"<root><unclosed></root>");
    assert!(result.is_err());
    assert!(matches!(result, Err(DocumentError::MalformedXml(_))));
}

#[test]
fn xml_keeps_cdata_and_drops_blank_lines() {
    let xml = "<a>\r\n  <b><![CDATA[x < y]]></b>\n\n  <c>  z  </c>\n</a>";
    assert_eq!(extract_xml_text(xml).unwrap(), "x < y\nz");
}

#[test]
fn xml_rejects_invalid_utf8() {
    match XmlParser.parse("data.xml", b"<a>\xff</a>") {
        Err(e) => {
            assert!(matches!(e, DocumentError::NotUtf8(_)));
            assert_eq!(e.message(), "failed to read file data.xml: stream did not contain valid UTF-8");
        }
        Ok(t) => panic!("unexpected {t:?}"),
    }
}

#[test]
fn supports_only_pdf_extension() {
    assert!(PdfParser.supports("report.pdf"));
    assert!(PdfParser.supports("REPORT.PDF"));
    assert!(!PdfParser.supports("notes.txt"));
    assert!(!PdfParser.supports("LICENSE"));
}

/// Builds a minimal single-page PDF containing `text`, computing the xref
/// offsets so the file is well-formed.
fn minimal_pdf(text: &str) -> Vec<u8> {
    let stream = format!("BT /F1 12 Tf 72 720 Td ({text}) Tj ET");
    let objects = [
        "<< /Type /Catalog /Pages 2 0 R >>".to_string(),
        "<< /Type /Pages /Kids [3 0 R] /Count 1 >>".to_string(),
        "<< /Type /Page /Parent 2 0 R /MediaBox [0 0 612 792] \
         /Resources << /Font << /F1 4 0 R >> >> /Contents 5 0 R >>"
            .to_string(),
        "<< /Type /Font /Subtype /Type1 /BaseFont /Helvetica >>".to_string(),
        format!(
            "<< /Length {} >>\nstream\n{stream}\nendstream",
            stream.len()
        ),
    ];

    let mut pdf = String::from("%PDF-1.4\n");
    let mut offsets = Vec::new();
    for (i, body) in objects.iter().enumerate() {
        offsets.push(pdf.len());
        pdf.push_str(&format!("{} 0 obj\n{body}\nendobj\n", i + 1));
    }
    let xref_offset = pdf.len();
    pdf.push_str(&format!("xref\n0 {}\n", objects.len() + 1));
    pdf.push_str("0000000000 65535 f \n");
    for offset in offsets {
        pdf.push_str(&format!("{offset:010} 00000 n \n"));
    }
    pdf.push_str(&format!(
        "trailer\n<< /Size {} /Root 1 0 R >>\nstartxref\n{xref_offset}\n%%EOF\n",
        objects.len() + 1
    ));
    pdf.into_bytes()
}

#[test]
fn parses_text_from_pdf() {
    let result = PdfParser.parse("report.pdf", &minimal_pdf("Hello PDF"));
    assert!(result.unwrap().contains("Hello PDF"));
}

#[test]
fn errors_on_non_pdf_content() {
    let result = PdfParser.parse("report.pdf", b"just plain text, not a pdf");
    assert!(result.is_err());
}

#[test]
fn supports_excel_extensions() {
    assert!(ExcelParser.supports("data.xlsx"));
    assert!(ExcelParser.supports("DATA.XLSX"));
    assert!(ExcelParser.supports("macro.xlsm"));
    assert!(ExcelParser.supports("legacy.xls"));
    assert!(!ExcelParser.supports("notes.txt"));
    assert!(!ExcelParser.supports("LICENSE"));
}

/// Builds a minimal one-sheet xlsx using inline strings (no
/// sharedStrings.xml needed).
fn minimal_xlsx(sheet_data_xml: &str) -> Vec<u8> {
    let entries: &[(&str, String)] = &[
        (
            "[Content_Types].xml",
            r#"<?xml version="1.0" encoding="UTF-8" standalone="yes"?>
<Types xmlns="http://schemas.openxmlformats.org/package/2006/content-types">
<Default Extension="rels" ContentType="application/vnd.openxmlformats-package.relationships+xml"/>
<Default Extension="xml" ContentType="application/xml"/>
<Override PartName="/xl/workbook.xml" ContentType="application/vnd.openxmlformats-officedocument.spreadsheetml.sheet.main+xml"/>
<Override PartName="/xl/worksheets/sheet1.xml" ContentType="application/vnd.openxmlformats-officedocument.spreadsheetml.worksheet+xml"/>
</Types>"#
                .to_string(),
        ),
        (
            "_rels/.rels",
            r#"<Relationships xmlns="http://schemas.openxmlformats.org/package/2006/relationships">
<Relationship Id="rId1" Type="http://schemas.openxmlformats.org/officeDocument/2006/relationships/officeDocument" Target="xl/workbook.xml"/>
</Relationships>"#
                .to_string(),
        ),
        (
            "xl/workbook.xml",
            r#"<workbook xmlns="http://schemas.openxmlformats.org/spreadsheetml/2006/main" xmlns:r="http://schemas.openxmlformats.org/officeDocument/2006/relationships">
<sheets><sheet name="Sheet1" sheetId="1" r:id="rId1"/></sheets>
</workbook>"#
                .to_string(),
        ),
        (
            "xl/_rels/workbook.xml.rels",
            r#"<Relationships xmlns="http://schemas.openxmlformats.org/package/2006/relationships">
<Relationship Id="rId1" Type="http://schemas.openxmlformats.org/officeDocument/2006/relationships/worksheet" Target="worksheets/sheet1.xml"/>
</Relationships>"#
                .to_string(),
        ),
        (
            "xl/worksheets/sheet1.xml",
            format!(
                r#"<worksheet xmlns="http://schemas.openxmlformats.org/spreadsheetml/2006/main">
<sheetData>{sheet_data_xml}</sheetData>
</worksheet>"#
            ),
        ),
    ];
    let mut zip = zip::ZipWriter::new(std::io::Cursor::new(Vec::new()));
    for (name, content) in entries {
        zip.start_file(*name, zip::write::SimpleFileOptions::default())
            .unwrap();
        zip.write_all(content.as_bytes()).unwrap();
    }
    zip.finish().unwrap().into_inner()
}

#[test]
fn parses_rows_as_tab_separated_lines() {
    let xlsx = minimal_xlsx(
        r#"<row r="1"><c r="A1" t="inlineStr"><is><t>Name</t></is></c><c r="B1" t="inlineStr"><is><t>Age</t></is></c></row>
<row r="2"><c r="A2" t="inlineStr"><is><t>Alice</t></is></c><c r="B2"><v>30</v></c></row>"#,
    );
    let result = ExcelParser.parse("data.xlsx", &xlsx);
    assert_eq!(result.unwrap(), "Sheet: Sheet1\nName\tAge\nAlice\t30");
}

#[test]
fn errors_on_non_excel_content() {
    let result = ExcelParser.parse("data.xlsx", b"just plain text, not a workbook");
    assert!(result.is_err());
}

fn sheet(name: &str, rows: &[&[&str]]) -> Sheet {
    Sheet {
        name: name.to_string(),
        rows: rows
            .iter()
            .map(|r| r.iter().map(|c| c.to_string()).collect())
            .collect(),
    }
}

#[test]
fn render_workbook_skips_blank_rows_and_empty_sheets() {
    let sheets = vec![
        sheet("Empty", &[&["", " "]]),
        sheet("People", &[&["Name", "Age", ""], &["", ""], &["Bob", "41", " "]]),
        sheet("More", &[&["x"]]),
    ];
    assert_eq!(
        render_workbook(&sheets),
        "Sheet: People\nName\tAge\nBob\t41\n\nSheet: More\nx"
    );
}

#[test]
fn render_workbook_of_nothing_is_empty() {
    assert_eq!(render_workbook(&Vec::new()), "");
}

#[test]
fn errors_on_document_xml_that_is_not_utf8() {
    let mut zip = zip::ZipWriter::new(std::io::Cursor::new(Vec::new()));
    zip.start_file("word/document.xml", zip::write::SimpleFileOptions::default())
        .unwrap();
    zip.write_all(b"<w:t>\xff</w:t>").unwrap();
    let bytes = zip.finish().unwrap().into_inner();
    assert!(matches!(DocxParser.parse("report.docx", &bytes), Err(DocumentError::UnreadableBody(_, _))));
}

#[test]
fn pdf_and_workbook_errors_name_their_kind() {
    match PdfParser.parse("a.pdf", b"%PDF-nothing") {
        Err(e) => {
            assert!(matches!(e, DocumentError::Pdf(_, _)));
            assert!(e.message().starts_with("failed to extract text from PDF a.pdf: "));
        }
        Ok(t) => panic!("unexpected {t:?}"),
    }
    match ExcelParser.parse("a.xlsx", b"plain") {
        Err(e) => {
            assert!(matches!(e, DocumentError::NotWorkbook(_, _)));
            assert!(e.message().starts_with("failed to open Excel file a.xlsx: Xlsx error: "));
        }
        Ok(t) => panic!("unexpected {t:?}"),
    }
}

#[test]
fn errors_on_sheet_that_cannot_be_read() {
    let full = minimal_xlsx("");
    // drop the worksheet part the workbook points to
    let mut archive = zip::ZipArchive::new(std::io::Cursor::new(full)).unwrap();
    let mut zip = zip::ZipWriter::new(std::io::Cursor::new(Vec::new()));
    for i in 0..archive.len() {
        let mut file = archive.by_index(i).unwrap();
        let name = file.name().unwrap().to_string();
        if name == "xl/worksheets/sheet1.xml" {
            continue;
        }
        let mut data = Vec::new();
        std::io::Read::read_to_end(&mut file, &mut data).unwrap();
        zip.start_file(name, zip::write::SimpleFileOptions::default()).unwrap();
        zip.write_all(&data).unwrap();
    }
    let bytes = zip.finish().unwrap().into_inner();
    match ExcelParser.parse("data.xlsx", &bytes) {
        Err(DocumentError::UnreadableSheet(name, path, _)) => {
            assert_eq!(name, "Sheet1");
            assert_eq!(path, "data.xlsx");
        }
        Err(DocumentError::NotWorkbook(_, _)) => {}
        other => panic!("unexpected {other:?}"),
    }
}

#[test]
fn empty_sheet_gives_empty_text() {
    assert_eq!(ExcelParser.parse("data.xlsx", &minimal_xlsx("")).unwrap(), "");
}

#[test]
fn error_messages_describe_the_failure() {
    assert_eq!(
        DocumentError::NotUtf8("a.xml".into()).message(),
        "failed to read file a.xml: stream did not contain valid UTF-8"
    );
    assert_eq!(
        DocumentError::NotWordDocument("r.docx".into(), "specified file not found in archive".into())
            .message(),
        "r.docx is not a Word document (missing word/document.xml): specified file not found in archive"
    );
    assert_eq!(
        DocumentError::UnreadableSheet("Data".into(), "b.xlsx".into(), "boom".into()).message(),
        "failed to read sheet 'Data' of b.xlsx: boom"
    );
    assert_eq!(DocumentError::MalformedXml("bad".into()).message(), "malformed XML: bad");
    assert_eq!(
        DocumentError::MalformedBodyCharRef("x".into()).message(),
        "malformed character reference in document.xml: x"
    );
    assert_eq!(
        DocumentError::NotZip("r.docx".into(), "z".into()).message(),
        "r.docx is not a valid .docx (zip) file: z"
    );
}

#[test]
fn docx_ignores_malformed_reference_outside_runs() {
    let xml = "<w:p><w:pPr>&#0;</w:pPr><w:r><w:t>kept</w:t></w:r></w:p>";
    assert_eq!(extract_docx_text(xml).unwrap(), "kept");
}

#[test]
fn docx_markup_error_after_text_is_malformed_body() {
    let xml = "<w:p><w:r><w:t>a</w:t></w:r></w:x>";
    assert!(matches!(extract_docx_text(xml), Err(DocumentError::MalformedBody(_))));
}

#[test]
fn zip_without_document_xml_names_missing_part() {
    let mut zip = zip::ZipWriter::new(std::io::Cursor::new(Vec::new()));
    zip.start_file("other.txt", zip::write::SimpleFileOptions::default())
        .unwrap();
    zip.write_all(b"nope").unwrap();
    let bytes = zip.finish().unwrap().into_inner();
    let err = DocxParser.parse("r.docx", &bytes).unwrap_err();
    assert!(matches!(err, DocumentError::NotWordDocument(_, _)));
    assert_eq!(
        err.message(),
        "r.docx is not a Word document (missing word/document.xml): specified file not found in archive"
    );
}

#[test]
fn xml_char_ref_error_is_reported() {
    let err = extract_xml_text("<a>&#0;</a>").unwrap_err();
    assert!(matches!(err, DocumentError::MalformedCharRef(_)));
    assert!(err.message().starts_with("malformed character reference in XML: "));
}

#[test]
fn workbook_extension_case_falls_back_to_detection() {
    let xlsx = minimal_xlsx(
        r#"<row r="1"><c r="A1" t="inlineStr"><is><t>Hi</t></is></c></row>"#,
    );
    assert_eq!(ExcelParser.parse("DATA.XLSX", &xlsx).unwrap(), "Sheet: Sheet1\nHi");
    match ExcelParser.parse("data.xls", &xlsx) {
        Err(DocumentError::NotWorkbook(path, detail)) => {
            assert_eq!(path, "data.xls");
            assert!(detail.starts_with("Xls error: "));
        }
        other => panic!("unexpected {other:?}"),
    }
}
