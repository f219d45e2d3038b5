//! Page shells around rendered fragments.
use vstd::prelude::*;

verus! {

pub open spec fn page_shell_text(
    head_common: Seq<char>,
    head_fragment: Seq<char>,
    body_header: Seq<char>,
    body: Seq<char>,
    footer: Seq<char>,
) -> Seq<char> {
    "<!doctype html>\n<html lang=\"en\">\n<head>\n<meta charset=\"utf-8\">\n<meta name=\"viewport\" content=\"width=device-width, initial-scale=1\">\n"@
        + head_common + "\n"@ + head_fragment + "\n</head>\n<body>\n<article>\n<section>\n"@ + body_header + "\n"@
        + body + "\n</section>\n</article>\n</body>\n"@ + footer + "\n</html>\n"@
}

/// The HTML shell shared by pages.
pub fn page_shell(head_common: &str, head_fragment: &str, body_header: &str, body: &str, footer: &str) -> (r:
    String)
    ensures
        r@ == page_shell_text(head_common@, head_fragment@, body_header@, body@, footer@),
{
    let mut s = String::from_str(
        "<!doctype html>\n<html lang=\"en\">\n<head>\n<meta charset=\"utf-8\">\n<meta name=\"viewport\" content=\"width=device-width, initial-scale=1\">\n",
    );
    s.append(head_common);
    s.append("\n");
    s.append(head_fragment);
    s.append("\n</head>\n<body>\n<article>\n<section>\n");
    s.append(body_header);
    s.append("\n");
    s.append(body);
    s.append("\n</section>\n</article>\n</body>\n");
    s.append(footer);
    s.append("\n</html>\n");
    s
}

pub open spec fn listing_page_text(
    page_title: Seq<char>,
    heading: Seq<char>,
    body: Seq<char>,
    head_includes: Seq<char>,
    href_prefix: Seq<char>,
) -> Seq<char> {
    "<!doctype html>\n<html lang=\"en\">\n<head>\n<meta charset=\"utf-8\">\n<meta name=\"viewport\" content=\"width=device-width, initial-scale=1\">\n"@
        + head_includes + "\n<title>"@ + page_title + "</title>\n<link rel=\"stylesheet\" href=\""@ + href_prefix
        + "style.css\">\n</head>\n<body>\n<article>\n<section>\n<h1>"@ + heading + "</h1>\n"@ + body
        + "\n</section>\n</article>\n</body>\n</html>\n"@
}

/// A listing page around a body, with the shared head and the prefix back to the root.
pub fn listing_page(page_title: &str, heading: &str, body: &str, head_includes: &str, href_prefix: &str) -> (r:
    String)
    ensures
        r@ == listing_page_text(page_title@, heading@, body@, head_includes@, href_prefix@),
{
    let mut s = String::from_str(
        "<!doctype html>\n<html lang=\"en\">\n<head>\n<meta charset=\"utf-8\">\n<meta name=\"viewport\" content=\"width=device-width, initial-scale=1\">\n",
    );
    s.append(head_includes);
    s.append("\n<title>");
    s.append(page_title);
    s.append("</title>\n<link rel=\"stylesheet\" href=\"");
    s.append(href_prefix);
    s.append("style.css\">\n</head>\n<body>\n<article>\n<section>\n<h1>");
    s.append(heading);
    s.append("</h1>\n");
    s.append(body);
    s.append("\n</section>\n</article>\n</body>\n</html>\n");
    s
}

} // verus!
