use pktctl::activity::{html_to_text, instruction_page, without_inline_images, InstructionsRequest};
use pktctl::error::PtError;

#[test]
fn drops_embedded_images_but_keeps_the_tags() {
    let html = r#"<p>Tags:<br><img width="800px" src="data:image/png;base64,iVBORw0KGgo=" alt=""></p><img src='data:image/gif;base64,R0lG'><a href="https://x/data:y">link</a>"#;
    let clean = without_inline_images(html);
    assert_eq!(
        clean,
        r#"<p>Tags:<br><img width="800px" src="data:,image-removed" alt=""></p><img src='data:,image-removed'><a href="https://x/data:y">link</a>"#
    );
    assert_eq!(html_to_text(html), "Tags:\n[image]\n[image]link");
}

#[test]
fn keeps_the_words_and_drops_markup() {
    let html = "<html><head><title>Lab</title><style>body{color:red}</style></head>\
                <body><h1>Latching &amp; PLC</h1><p>Step 1:&nbsp;cable <b>R1</b></p>\
                <ul><li>ping PC2</li></ul></body></html>";
    assert_eq!(
        html_to_text(html),
        "Latching & PLC\nStep 1: cable R1\nping PC2"
    );
}

#[test]
fn plain_text_passes_through() {
    assert_eq!(html_to_text("just text"), "just text");
}

#[test]
fn unquoted_data_uris_are_replaced_too() {
    assert_eq!(
        without_inline_images("<img src=data:image/png;base64,AAAA>"),
        "<img src=data:,image-removed>"
    );
    assert_eq!(
        without_inline_images("<img src=data:image/gif;base64,R0lG alt=x>"),
        "<img src=data:,image-removed alt=x>"
    );
    assert_eq!(without_inline_images("data:image/png;base64,AAAA"), "data:,image-removed");
    assert_eq!(without_inline_images("see https://x/data:y"), "see https://x/data:y");
    let once = without_inline_images("<img src=data:a,b><img src=\"data:c\">");
    assert_eq!(once, "<img src=data:,image-removed><img src=\"data:,image-removed\">");
    assert_eq!(without_inline_images(&once), once);
}

#[test]
fn unclosed_quotes_drop_the_rest_of_the_image() {
    assert_eq!(
        without_inline_images("<img src=\"data:image/png;base64,AAAA"),
        "<img src=\"data:,image-removed"
    );
    assert_eq!(without_inline_images("no images"), "no images");
}

#[test]
fn hidden_elements_and_unclosed_tags_leave_no_text() {
    assert_eq!(html_to_text("<script>var a = 1;</script>after"), "after");
    assert_eq!(html_to_text("<STYLE/>shown"), "shown");
    assert_eq!(html_to_text("before<broken"), "before");
    assert_eq!(html_to_text("&lt;b&gt; &quot;x&quot; &#39;y&apos;"), "<b> \"x\" 'y'");
    assert_eq!(html_to_text("  a \t b  \n\n  c  "), "a b\nc");
}

#[test]
fn instruction_pages_are_checked_against_the_count() {
    assert_eq!(instruction_page(&InstructionsRequest::default(), 2).unwrap(), 1);
    assert_eq!(instruction_page(&InstructionsRequest { page: Some(2) }, 2).unwrap(), 2);
    let error = instruction_page(&InstructionsRequest { page: Some(3) }, 2).unwrap_err();
    assert_eq!(error, PtError::InvalidInput("page must be between 1 and 2".into()));
    assert!(instruction_page(&InstructionsRequest { page: Some(0) }, 2).is_err());
}

#[test]
fn readable_text_reads_back_as_itself() {
    let once = html_to_text("<p>  Step 1:\t cable <b>R1</b></p><p></p>\n\n<li>ping   PC2 </li>");
    assert_eq!(once, "Step 1: cable R1\nping PC2");
    assert_eq!(html_to_text(&once), once);
}
