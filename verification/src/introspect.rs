//! Rendering of the introspection page: HTML escaping, handle paths, and
//! the page layout over values gathered from the backend. The gathering
//! itself (driving reads to completion) is the caller's loop; everything
//! that computes text lives here.

use vstd::prelude::*;

use crate::TaskId;
use crate::ids::CellId;
use crate::registry::Registry;
use crate::vc::RawVc;

verus! {

/// How one character reads inside HTML text; `quote` additionally escapes
/// double quotes, for attribute positions.
pub open spec fn escaped_char(c: char, quote: bool) -> Seq<char> {
    if c == '&' {
        seq!['&', 'a', 'm', 'p', ';']
    } else if c == '>' {
        seq!['&', 'g', 't', ';']
    } else if c == '<' {
        seq!['&', 'l', 't', ';']
    } else if quote && c == '"' {
        seq!['&', 'q', 'u', 'o', 't', ';']
    } else {
        seq![c]
    }
}

/// The whole text, escaped character by character.
pub open spec fn escaped(s: Seq<char>, quote: bool) -> Seq<char>
    decreases s.len(),
{
    if s.len() == 0 {
        Seq::empty()
    } else {
        escaped_char(s[0], quote) + escaped(s.drop_first(), quote)
    }
}

/// Escaping distributes over appending one character.
proof fn lemma_escaped_snoc(s: Seq<char>, c: char, quote: bool)
    ensures
        escaped(s.push(c), quote) == escaped(s, quote) + escaped_char(c, quote),
    decreases s.len(),
{
    if s.len() == 0 {
        assert(s.push(c)[0] == c);
        assert(s.push(c).drop_first() =~= Seq::<char>::empty());
        assert(escaped(s.push(c), quote) =~= escaped_char(c, quote) + escaped(
            Seq::<char>::empty(),
            quote,
        ));
        assert(escaped_char(c, quote) + Seq::<char>::empty() =~= escaped_char(c, quote));
        assert(escaped(s, quote) + escaped_char(c, quote) =~= escaped_char(c, quote));
    } else {
        assert(s.push(c).drop_first() =~= s.drop_first().push(c));
        lemma_escaped_snoc(s.drop_first(), c, quote);
        assert(escaped(s.push(c), quote) =~= escaped(s, quote) + escaped_char(c, quote));
    }
}

/// Relies on `str::chars`: the characters of the string, in order; the
/// view of a string slice is exactly that character sequence.
#[verifier::external_body]
fn str_chars(s: &str) -> (r: Vec<char>)
    ensures
        r@ == s@,
{
    s.chars().collect()
}

/// Relies on `String::push`: appends exactly one character.
pub assume_specification[ String::push ](s: &mut String, c: char)
    ensures
        final(s)@ == old(s)@.push(c),
;

/// Escape text for an HTML text position: `&`, `>` and `<` become
/// entities.
pub fn html_escape(s: &str) -> (r: String)
    ensures
        r@ == escaped(s@, false),
{
    escape(s, false)
}

/// Escape text for an HTML attribute position: also escapes `"`.
pub fn html_string_escape(s: &str) -> (r: String)
    ensures
        r@ == escaped(s@, true),
{
    escape(s, true)
}

fn escape(s: &str, quote: bool) -> (r: String)
    ensures
        r@ == escaped(s@, quote),
{
    let cs = str_chars(s);
    let mut out = String::new();
    let mut i: usize = 0;
    proof {
        assert(s@.take(0) =~= Seq::<char>::empty());
    }
    while i < cs.len()
        invariant
            i <= cs@.len(),
            cs@ == s@,
            out@ == escaped(s@.take(i as int), quote),
        decreases cs@.len() - i,
    {
        let c = cs[i];
        if c == '&' {
            out.append("&amp;");
            proof {
                reveal_strlit("&amp;");
            }
        } else if c == '>' {
            out.append("&gt;");
            proof {
                reveal_strlit("&gt;");
            }
        } else if c == '<' {
            out.append("&lt;");
            proof {
                reveal_strlit("&lt;");
            }
        } else if quote && c == '"' {
            out.append("&quot;");
            proof {
                reveal_strlit("&quot;");
            }
        } else {
            out.push(c);
        }
        proof {
            lemma_escaped_snoc(s@.take(i as int), c, quote);
            assert(s@.take(i + 1 as int) =~= s@.take(i as int).push(c));
            assert(out@ =~= escaped(s@.take(i + 1 as int), quote));
        }
        i += 1;
    }
    proof {
        assert(s@.take(s@.len() as int) =~= s@);
    }
    out
}

/// The decimal digit character for one digit value.
pub open spec fn digit(d: nat) -> char {
    if d == 0 {
        '0'
    } else if d == 1 {
        '1'
    } else if d == 2 {
        '2'
    } else if d == 3 {
        '3'
    } else if d == 4 {
        '4'
    } else if d == 5 {
        '5'
    } else if d == 6 {
        '6'
    } else if d == 7 {
        '7'
    } else if d == 8 {
        '8'
    } else {
        '9'
    }
}

/// The decimal rendering of a number, most significant digit first.
pub open spec fn decimal(n: nat) -> Seq<char>
    decreases n,
{
    if n < 10 {
        seq![digit(n)]
    } else {
        decimal(n / 10).push(digit(n % 10))
    }
}

fn digit_char(d: u64) -> (c: char)
    requires
        d < 10,
    ensures
        c == digit(d as nat),
{
    if d == 0 {
        '0'
    } else if d == 1 {
        '1'
    } else if d == 2 {
        '2'
    } else if d == 3 {
        '3'
    } else if d == 4 {
        '4'
    } else if d == 5 {
        '5'
    } else if d == 6 {
        '6'
    } else if d == 7 {
        '7'
    } else if d == 8 {
        '8'
    } else {
        '9'
    }
}

/// The decimal rendering of a number.
pub fn u64_to_string(n: u64) -> (r: String)
    ensures
        r@ == decimal(n as nat),
    decreases n,
{
    if n < 10 {
        let mut s = String::new();
        s.push(digit_char(n));
        proof {
            assert(s@ =~= decimal(n as nat));
        }
        s
    } else {
        let mut s = u64_to_string(n / 10);
        s.push(digit_char(n % 10));
        s
    }
}

/// The textual path of a handle: `o<task>` for an output handle,
/// `c<task>.<type>.<index>` for a cell handle.
pub open spec fn vc_path_spec(vc: RawVc) -> Seq<char> {
    match vc {
        RawVc::TaskOutput(t) => seq!['o'] + decimal(t.0 as nat),
        RawVc::TaskCell(t, c) => seq!['c'] + decimal(t.0 as nat) + seq!['.'] + decimal(
            c.type_id.0 as nat,
        ) + seq!['.'] + decimal(c.index as nat),
    }
}

/// Render the textual path of a handle.
pub fn vc_path(vc: RawVc) -> (r: String)
    ensures
        r@ == vc_path_spec(vc),
{
    match vc {
        RawVc::TaskOutput(t) => {
            let mut s = String::new();
            s.push('o');
            let num = u64_to_string(t.0);
            s.append(num.as_str());
            proof {
                assert(s@ =~= vc_path_spec(vc));
            }
            s
        },
        RawVc::TaskCell(t, c) => {
            let mut s = String::new();
            s.push('c');
            let num = u64_to_string(t.0);
            s.append(num.as_str());
            s.push('.');
            let ty = u64_to_string(c.type_id.0 as u64);
            s.append(ty.as_str());
            s.push('.');
            let ix = u64_to_string(c.index as u64);
            s.append(ix.as_str());
            proof {
                assert(s@ =~= vc_path_spec(vc));
            }
            s
        },
    }
}

/// The label a cell handle shows on the page: the value type's name, a
/// `#`, and the cell index. Only cell handles carry one.
pub open spec fn internal_type_label_spec(reg: Registry, t: TaskId, c: CellId) -> Seq<char> {
    reg.value_types@[c.type_id.0 as int].name@ + seq!['#'] + decimal(c.index as nat)
}

/// Render the internal type label of a resolved (cell) handle.
pub fn internal_type_label(reg: &Registry, vc: RawVc) -> (r: String)
    requires
        vc matches RawVc::TaskCell(_, c) && reg.valid_value_type(c.type_id),
    ensures
        vc matches RawVc::TaskCell(t, c) && r@ == internal_type_label_spec(*reg, t, c),
{
    match vc {
        RawVc::TaskCell(_t, c) => {
            let mut s = reg.value_types[c.type_id.0 as usize].name.clone();
            s.push('#');
            let ix = u64_to_string(c.index as u64);
            s.append(ix.as_str());
            s
        },
        RawVc::TaskOutput(t) => {
            proof {
                assert(false);
            }
            String::new()
        },
    }
}

/// A readable rendering of a result: the value itself, or the error
/// message behind an `ERROR: ` prefix.
pub open spec fn str_or_err_spec(r: Result<Seq<char>, Seq<char>>) -> Seq<char> {
    match r {
        Ok(s) => s,
        Err(e) => seq!['E', 'R', 'R', 'O', 'R', ':', ' '] + e,
    }
}

/// Render a result for the page.
pub fn str_or_err(r: &Result<String, String>) -> (out: String)
    ensures
        out@ == str_or_err_spec(
            match r {
                Ok(s) => Ok(s@),
                Err(e) => Err(e@),
            },
        ),
{
    match r {
        Ok(s) => s.clone(),
        Err(e) => {
            let mut out = String::new();
            out.append("ERROR: ");
            out.append(e.as_str());
            proof {
                reveal_strlit("ERROR: ");
                assert(out@ =~= str_or_err_spec(Err(e@)));
            }
            out
        },
    }
}

/// What `urlencoding::encode` returns for a text: the result depends on
/// the input characters alone.
pub uninterp spec fn percent_encoded(s: Seq<char>) -> Seq<char>;

/// Relies on `urlencoding::encode`: percent-encodes every byte except
/// ASCII alphanumerics and `-`, `.`, `_`, `~`; a pure function of the
/// input, and empty input stays empty.
#[verifier::external_body]
fn url_encode(s: &str) -> (r: String)
    ensures
        r@ == percent_encoded(s@),
        s@.len() == 0 ==> r@.len() == 0,
{
    urlencoding::encode(s).into_owned()
}

/// Relies on `mime::TEXT_HTML_UTF_8`: its canonical text is
/// `text/html; charset=utf-8`.
#[verifier::external_body]
fn text_html_content_type() -> (r: String)
    ensures
        r@ == "text/html; charset=utf-8"@,
{
    mime::TEXT_HTML_UTF_8.to_string()
}

/// One child of the inspected node, as gathered by the caller: its edge
/// name, the child's type and title, and its handle path (see
/// `vc_path`).
pub struct ChildEntry {
    pub name: String,
    pub ty: String,
    pub title: String,
    pub path: String,
}

/// The list line rendered for one child.
pub open spec fn child_line_spec(
    name: Seq<char>,
    ty: Seq<char>,
    title: Seq<char>,
    path: Seq<char>,
) -> Seq<char> {
    "<li>"@ + escaped(name, false) + " <!-- "@ + escaped(title, false) + " --><a href=\"./"@
        + escaped(percent_encoded(path), true) + "\">["@ + escaped(ty, false) + "] "@ + escaped(
        title,
        false,
    ) + "</a></li>"@
}

/// Render the list line for one child.
pub fn render_child_line(entry: &ChildEntry) -> (r: String)
    ensures
        r@ == child_line_spec(entry.name@, entry.ty@, entry.title@, entry.path@),
{
    let encoded = url_encode(entry.path.as_str());
    let mut out = String::new();
    out.append("<li>");
    let e_name = html_escape(entry.name.as_str());
    out.append(e_name.as_str());
    out.append(" <!-- ");
    let e_title = html_escape(entry.title.as_str());
    out.append(e_title.as_str());
    out.append(" --><a href=\"./");
    let e_path = html_string_escape(encoded.as_str());
    out.append(e_path.as_str());
    out.append("\">[");
    let e_ty = html_escape(entry.ty.as_str());
    out.append(e_ty.as_str());
    out.append("] ");
    out.append(e_title.as_str());
    out.append("</a></li>");
    out
}

/// The concatenated list lines of all children, in order.
pub open spec fn children_spec(entries: Seq<ChildEntry>) -> Seq<char>
    decreases entries.len(),
{
    if entries.len() == 0 {
        Seq::empty()
    } else {
        children_spec(entries.drop_last()) + child_line_spec(
            entries.last().name@,
            entries.last().ty@,
            entries.last().title@,
            entries.last().path@,
        )
    }
}

/// Render the list lines of all children.
pub fn render_children(entries: &Vec<ChildEntry>) -> (r: String)
    ensures
        r@ == children_spec(entries@),
{
    let mut out = String::new();
    let mut i: usize = 0;
    proof {
        assert(entries@.take(0) =~= Seq::<ChildEntry>::empty());
    }
    while i < entries.len()
        invariant
            i <= entries@.len(),
            out@ == children_spec(entries@.take(i as int)),
        decreases entries@.len() - i,
    {
        let line = render_child_line(&entries[i]);
        out.append(line.as_str());
        proof {
            assert(entries@.take(i + 1 as int).drop_last() =~= entries@.take(i as int));
            assert(entries@.take(i + 1 as int).last() == entries@[i as int]);
        }
        i += 1;
    }
    proof {
        assert(entries@.take(entries@.len() as int) =~= entries@);
    }
    out
}

/// The details block: nothing for empty details; folded behind a
/// `<details>` disclosure when the node also has children; a plain
/// heading otherwise.
pub open spec fn details_block_spec(details: Seq<char>, has_children: bool) -> Seq<char> {
    if details.len() == 0 {
        Seq::empty()
    } else if has_children {
        "<details><summary><h3 style=\"display: inline;\">Details</h3></summary><pre>"@ + escaped(
            details,
            false,
        ) + "</pre></details>"@
    } else {
        "<h3>Details</h3><pre>"@ + escaped(details, false) + "</pre>"@
    }
}

/// Render the details block.
pub fn render_details(details: &String, has_children: bool) -> (r: String)
    ensures
        r@ == details_block_spec(details@, has_children),
{
    if details.as_str().is_empty() {
        let out = String::new();
        return out;
    }
    let mut out = String::new();
    let e = html_escape(details.as_str());
    if has_children {
        out.append("<details><summary><h3 style=\"display: inline;\">Details</h3></summary><pre>");
        out.append(e.as_str());
        out.append("</pre></details>");
    } else {
        out.append("<h3>Details</h3><pre>");
        out.append(e.as_str());
        out.append("</pre>");
    }
    out
}

/// The whole page over the already-rendered internal type label, details
/// block and children list.
pub open spec fn page_spec(
    internal_ty: Seq<char>,
    ty: Seq<char>,
    title: Seq<char>,
    details_block: Seq<char>,
    children: Seq<char>,
) -> Seq<char> {
    "<!DOCTYPE html>\n<html><head><title>"@ + escaped(title, false) + "</title></head>\n<body>\n  <h3>"@
        + internal_ty + "</h3>\n  <h2>"@ + escaped(ty, false) + "</h2>\n  <h1>"@ + escaped(
        title,
        false,
    ) + "</h1>\n  "@ + details_block + "\n  <ul>"@ + children + "</ul>\n</body>\n</html>"@
}

/// A rendered page with its content type.
pub struct IntrospectionContent {
    pub content_type: String,
    pub body: String,
}

/// Render the introspection page for one node: its internal type label,
/// type, title, details, and children, as gathered by the caller.
pub fn render_introspection_page(
    internal_ty: &String,
    ty: &String,
    title: &String,
    details: &String,
    children: &Vec<ChildEntry>,
) -> (r: IntrospectionContent)
    ensures
        r.content_type@ == "text/html; charset=utf-8"@,
        r.body@ == page_spec(
            internal_ty@,
            ty@,
            title@,
            details_block_spec(details@, children@.len() > 0),
            children_spec(children@),
        ),
{
    let has_children = children.len() > 0;
    let children_html = render_children(children);
    let details_block = render_details(details, has_children);
    let e_title = html_escape(title.as_str());
    let e_ty = html_escape(ty.as_str());
    let mut body = String::new();
    body.append("<!DOCTYPE html>\n<html><head><title>");
    body.append(e_title.as_str());
    body.append("</title></head>\n<body>\n  <h3>");
    body.append(internal_ty.as_str());
    body.append("</h3>\n  <h2>");
    body.append(e_ty.as_str());
    body.append("</h2>\n  <h1>");
    body.append(e_title.as_str());
    body.append("</h1>\n  ");
    body.append(details_block.as_str());
    body.append("\n  <ul>");
    body.append(children_html.as_str());
    body.append("</ul>\n</body>\n</html>");
    IntrospectionContent { content_type: text_html_content_type(), body }
}

/// The route kinds the introspection source answers on.
#[derive(Clone, Copy, Debug, PartialEq, Eq, Structural, Hash)]
pub enum RouteType {
    Exact,
    CatchAll,
}

/// The introspection entry point: a set of root handles to walk from.
pub struct IntrospectionSource {
    pub roots: Vec<RawVc>,
}

impl IntrospectionSource {
    /// The node's type label.
    pub fn ty(&self) -> (r: String)
        ensures
            r@ == "introspection-source"@,
    {
        String::from_str("introspection-source")
    }

    /// The node's title.
    pub fn title(&self) -> (r: String)
        ensures
            r@ == "introspection-source"@,
    {
        String::from_str("introspection-source")
    }

    /// The children of the source: every root, under the edge name
    /// `root`.
    pub fn children(&self) -> (r: Vec<(String, RawVc)>)
        ensures
            r@.len() == self.roots@.len(),
            forall|i: int|
                0 <= i < r@.len() ==> (#[trigger] r@[i]).0@ == "root"@ && r@[i].1
                    == self.roots@[i],
    {
        let mut r: Vec<(String, RawVc)> = Vec::new();
        let mut i: usize = 0;
        while i < self.roots.len()
            invariant
                i <= self.roots@.len(),
                r@.len() == i,
                forall|j: int|
                    0 <= j < i ==> (#[trigger] r@[j]).0@ == "root"@ && r@[j].1 == self.roots@[j],
            decreases self.roots@.len() - i,
        {
            r.push((String::from_str("root"), self.roots[i]));
            i += 1;
        }
        r
    }

    /// The source answers both the exact root route and a catch-all for
    /// the handle paths under it.
    pub fn get_routes(&self) -> (r: Vec<RouteType>)
        ensures
            r@ == seq![RouteType::Exact, RouteType::CatchAll],
    {
        let mut r: Vec<RouteType> = Vec::new();
        r.push(RouteType::Exact);
        r.push(RouteType::CatchAll);
        proof {
            assert(r@ =~= seq![RouteType::Exact, RouteType::CatchAll]);
        }
        r
    }

    /// The node an empty request path means: the single root when there
    /// is exactly one, nothing otherwise (the source itself is then the
    /// subject, which no handle names).
    pub fn default_target(&self) -> (r: Option<RawVc>)
        ensures
            r == (if self.roots@.len() == 1 {
                Some(self.roots@[0])
            } else {
                None::<RawVc>
            }),
    {
        if self.roots.len() == 1 {
            Some(self.roots[0])
        } else {
            None
        }
    }
}

} // verus!
