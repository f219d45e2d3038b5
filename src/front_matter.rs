//! The simple front matter of a page and its head fragment.
use vstd::prelude::*;
use crate::text::{escaped, push_escaped};

verus! {

/// Metadata read from the top of a page.
#[derive(Default, Debug)]
pub struct FrontMatter {
    pub title: Option<String>,
    pub description: Option<String>,
    pub tags: Vec<String>,
}

pub open spec fn front_matter_html(title: Option<Seq<char>>, description: Option<Seq<char>>) -> Seq<char> {
    (match title {
        Some(t) => "\n<title>\n"@ + t + "\n</title>\n        "@,
        None => Seq::empty(),
    }) + (match description {
        Some(d) => "<meta name=\"description\" content=\""@ + escaped(d) + "\">"@,
        None => Seq::empty(),
    }) + "<link rel=\"stylesheet\" href=\"style.css\">"@
}

impl FrontMatter {
    /// The head fragment: title, description and stylesheet link.
    pub fn to_html(self) -> (r: String)
        ensures
            r@ == front_matter_html(crate::event::opt_view(self.title), crate::event::opt_view(self.description)),
    {
        let mut result = String::new();
        match &self.title {
            Some(t) => {
                result.append("\n<title>\n");
                result.append(t.as_str());
                result.append("\n</title>\n        ");
            },
            None => {},
        }
        match &self.description {
            Some(d) => {
                result.append("<meta name=\"description\" content=\"");
                push_escaped(&mut result, d.as_str());
                result.append("\">");
            },
            None => {},
        }
        result.append("<link rel=\"stylesheet\" href=\"style.css\">");
        assert(result@ =~= front_matter_html(crate::event::opt_view(self.title), crate::event::opt_view(self.description)));
        result
    }
}

} // verus!
