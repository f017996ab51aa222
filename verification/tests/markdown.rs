use kak_lsp::markdown::markdown_to_kak;

#[test]
fn markdown() {
    let cases = [
        ("# Single header", "# Single header"),
        ("## Double header", "## Double header"),
        ("#Invalid header", "#Invalid header"),
        ("Paragraph A\n\n\nParagraph B", "Paragraph A\n\nParagraph B"),
        ("Paragraph A\n\n\n\nParagraph B", "Paragraph A\n\nParagraph B"),
        ("Line A\nLine B", "Line A Line B"),
        ("```code block```", "  code block"),
        ("```\ncode block\n```", "  code block"),
        (
            "```\ncode block\nsecond line\nthird line\n```",
            "  code block\n  second line\n  third line",
        ),
        ("*italic*", "{+i}italic{}"),
        ("**bold**", "{+b}bold{}"),
        ("***bold italic***", "{+i}{+ib}bold italic{+i}{}"),
        ("***bold italic**just italic*", "{+i}{+ib}bold italic{+i}just italic{}"),
        ("> blockquote single line", "> blockquote single line"),
        (">blockquote single line no space", "> blockquote single line no space"),
        ("> blockquote\n> multi line", "> blockquote\n> multi line"),
        ("https://some-uri.tld", "https://some-uri.tld"),
        ("<https://some-uri.tld>", "https://some-uri.tld"),
        ("[link name](https://some-uri.tld)", "link name"),
    ];
    for (case, wanted) in cases.iter() {
        assert_eq!(*wanted, markdown_to_kak(case));
    }
}
