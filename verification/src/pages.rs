//! The bookmarklet, and the pages that the drop server shows.

use vstd::prelude::*;
use vstd::string::*;

use crate::extract::glue;
use crate::form;
use crate::form::url_encode_component;
use crate::json;
use crate::search;
use crate::text;

verus! {

/// The bookmarklet up to the address that it sends to.
pub const BOOKMARKLET_HEAD: &'static str = "(function(){\nvar A='http://";

/// The bookmarklet after the address.
pub const BOOKMARKLET_TAIL: &'static str = "/send-form';\nvar f=document.createElement('form');\nf.method='POST';f.action=A;f.target='_blank';f.acceptCharset='utf-8';\nfunction add(n,v){if(v==null)v='';var i=document.createElement('input');i.type='hidden';i.name=n;i.value=String(v);f.appendChild(i);}\nvar sel='';try{sel=String(window.getSelection&&window.getSelection()||'');}catch(e){}\nvar body='';try{body=(document.body&&document.body.innerText)||'';}catch(e){}\nif(body.length>180000)body=body.slice(0,180000);\nadd('title',document.title||'');\nadd('url',location.href||'');\nadd('selection',sel);\nadd('page_text',body);\nadd('content_type',sel.trim()?'selection':'page');\nadd('captured_at',new Date().toISOString());\ndocument.documentElement.appendChild(f);\nf.submit();\nsetTimeout(function(){try{f.remove();}catch(e){}},500);\n})();";

/// The page that offers the bookmarklet, up to the address of the daemon.
pub const INSTALL_HEAD: &'static str = "<!DOCTYPE html>\n<html lang=\"en\">\n<head>\n<meta charset=\"utf-8\"/>\n<meta name=\"viewport\" content=\"width=device-width, initial-scale=1\"/>\n<title>Send to Grok Research — install</title>\n<style>\n body { font-family: system-ui, sans-serif; max-width: 40rem; margin: 2rem auto; padding: 0 1rem; line-height: 1.5; }\n .bm { display: inline-block; background: #1e40af; color: #fff; padding: 0.75rem 1.1rem;\n        border-radius: 0.5rem; text-decoration: none; font-weight: 600; }\n .bm:hover { background: #1d4ed8; }\n code, pre { background: #f1f5f9; padding: 0.15rem 0.35rem; border-radius: 0.25rem; }\n pre { padding: 0.75rem; overflow-x: auto; white-space: pre-wrap; word-break: break-all; font-size: 0.75rem; }\n .box { border: 1px solid #cbd5e1; border-radius: 0.5rem; padding: 1rem; margin: 1rem 0; }\n h1 { font-size: 1.4rem; }\n</style>\n</head>\n<body>\n<h1>Send to Grok Research</h1>\n<p>Daemon is listening on <code>http://";

/// The page between that address and the bookmark.
pub const INSTALL_ADDRESS: &'static str = "</code>. You do <strong>not</strong> need a Brave extension for daily use.</p>\n\n<div class=\"box\">\n  <h2>1. Bookmark (one time, permanent)</h2>\n  <p>Drag this button to your bookmarks bar:</p>\n  <p><a class=\"bm\" href=\"";

/// The page between the bookmark and its source.
pub const INSTALL_BOOKMARK: &'static str = "\">Send to Grok Research</a></p>\n  <p>Or bookmark any page, then edit the URL to the javascript code below.</p>\n  <p>Daily use: open a page, optionally select text, click the bookmark. A tab opens and closes after send.</p>\n</div>\n\n<div class=\"box\">\n  <h2>2. Global hotkey (optional)</h2>\n  <p>Bind a key to clipboard send (no browser extension):</p>\n  <pre>research-send clip</pre>\n  <p>Example Hyprland:</p>\n  <pre>bind = SUPER SHIFT, Y, exec, research-send clip</pre>\n</div>\n\n<div class=\"box\">\n  <h2>Bookmarklet source</h2>\n  <pre id=\"src\"></pre>\n</div>\n\n<script>\ndocument.getElementById('src').textContent = ";

/// The end of the page.
pub const INSTALL_TAIL: &'static str = ";\n</script>\n</body>\n</html>\n";

/// The page that says that something was sent, up to its path.
pub const SUCCESS_HEAD: &'static str = "<!DOCTYPE html>\n<html lang=\"en\"><head><meta charset=\"utf-8\"/>\n<meta name=\"viewport\" content=\"width=device-width, initial-scale=1\"/>\n<title>Sent</title>\n<style>\n body { font-family: system-ui, sans-serif; padding: 2rem; max-width: 32rem; margin: auto; }\n</style>\n<script>setTimeout(function(){ try { window.close(); } catch(e){} }, 900);</script>\n</head>\n<body>\n<h1>Sent to Grok Research</h1>\n<p>Queued for background processing. You can close this tab.</p>\n<p style=\"font-size:0.85rem;color:#64748b\"><code>";

/// The end of that page.
pub const SUCCESS_TAIL: &'static str = "</code></p>\n</body></html>\n";

/// The bookmarklet for a server.
pub open spec fn bookmarklet_text(addr: Seq<char>) -> Seq<char> {
    BOOKMARKLET_HEAD@ + addr + BOOKMARKLET_TAIL@
}

/// Bookmarklet source. Form POST avoids mixed-content blocks on HTTPS pages.
pub fn bookmarklet_js(listen_addr: &str) -> (r: String)
    ensures
        r@ == bookmarklet_text(listen_addr@),
{
    let mut s = glue(BOOKMARKLET_HEAD, listen_addr);
    s.append(BOOKMARKLET_TAIL);
    s
}

/// The bookmarklet as an address that a browser runs.
pub open spec fn bookmarklet_link(addr: Seq<char>) -> Seq<char> {
    "javascript:"@ + form::url_encoded(bookmarklet_text(addr))
}

/// The bookmarklet as an address that a browser runs.
pub fn bookmarklet_href(listen_addr: &str) -> (r: String)
    ensures
        r@ == bookmarklet_link(listen_addr@),
{
    let js = bookmarklet_js(listen_addr);
    glue("javascript:", url_encode_component(js.as_str()).as_str())
}

/// How one character stands in HTML.
pub open spec fn html_char(c: char) -> Seq<char> {
    if c == '&' {
        "&amp;"@
    } else if c == '<' {
        "&lt;"@
    } else if c == '>' {
        "&gt;"@
    } else if c == '"' {
        "&quot;"@
    } else {
        seq![c]
    }
}

/// How a text stands in HTML.
pub open spec fn html_text(s: Seq<char>) -> Seq<char> {
    search::spelled(s, |c: char| html_char(c))
}

/// How a text stands in HTML.
pub fn html_escape(s: &str) -> (r: String)
    ensures
        r@ == html_text(s@),
{
    let v = text::chars_of(s);
    let ghost f = |c: char| html_char(c);
    let mut out = String::new();
    let mut i: usize = 0;
    assert(s@.take(0) == Seq::<char>::empty());
    while i < v.len()
        invariant
            v@ == s@,
            i <= v@.len(),
            f == (|c: char| html_char(c)),
            out@ == search::spelled(s@.take(i as int), f),
        decreases v@.len() - i,
    {
        let c = v[i];
        let ghost before = out@;
        proof {
            search::lemma_spelled_push(s@.take(i as int), c, f);
            assert(s@.take(i + 1) == s@.take(i as int).push(c));
        }
        if c == '&' {
            out.append("&amp;");
        } else if c == '<' {
            out.append("&lt;");
        } else if c == '>' {
            out.append("&gt;");
        } else if c == '"' {
            out.append("&quot;");
        } else {
            out.push(c);
            assert(out@ == before + seq![c]);
        }
        i = i + 1;
    }
    assert(s@.take(i as int) == s@);
    out
}

/// The page that offers the bookmarklet.
pub open spec fn install_text(addr: Seq<char>) -> Seq<char> {
    INSTALL_HEAD@ + addr + INSTALL_ADDRESS@ + html_text(bookmarklet_link(addr)) + INSTALL_BOOKMARK@
        + json::json_text(bookmarklet_text(addr)) + INSTALL_TAIL@
}

/// The page that offers the bookmarklet.
pub fn install_page(listen_addr: &str) -> (r: String)
    ensures
        r@ == install_text(listen_addr@),
{
    let href = bookmarklet_href(listen_addr);
    let raw_js = bookmarklet_js(listen_addr);
    let mut s = glue(INSTALL_HEAD, listen_addr);
    s.append(INSTALL_ADDRESS);
    s.append(html_escape(href.as_str()).as_str());
    s.append(INSTALL_BOOKMARK);
    s.append(json::quoted(raw_js.as_str()).as_str());
    s.append(INSTALL_TAIL);
    s
}

/// The page that says where something was stored.
pub open spec fn success_text(path: Seq<char>) -> Seq<char> {
    SUCCESS_HEAD@ + html_text(path) + SUCCESS_TAIL@
}

/// The page that says where something was stored.
pub fn success_page(path: &str) -> (r: String)
    ensures
        r@ == success_text(path@),
{
    let mut s = glue(SUCCESS_HEAD, html_escape(path).as_str());
    s.append(SUCCESS_TAIL);
    s
}

/// The page that says that something could not be stored.
pub open spec fn failure_text(error: Seq<char>) -> Seq<char> {
    "<!DOCTYPE html><html><body style='font-family:system-ui;padding:2rem'><h1>Send failed</h1><pre>"@
        + html_text(error)
        + "</pre><p><a href='javascript:window.close()'>Close</a></p></body></html>"@
}

/// The page that says that something could not be stored.
pub fn failure_page(error: &str) -> (r: String)
    ensures
        r@ == failure_text(error@),
{
    let mut s = glue(
        "<!DOCTYPE html><html><body style='font-family:system-ui;padding:2rem'><h1>Send failed</h1><pre>",
        html_escape(error).as_str(),
    );
    s.append("</pre><p><a href='javascript:window.close()'>Close</a></p></body></html>");
    s
}

/// A text in HTML opens no tag and closes no attribute.
pub proof fn escaped_text_is_inert(s: Seq<char>)
    ensures
        forall|i: int|
            0 <= i < html_text(s).len() ==> (#[trigger] html_text(s)[i]) != '<' && html_text(s)[i]
                != '>' && html_text(s)[i] != '"',
    decreases s.len(),
{
    reveal_strlit("&amp;");
    reveal_strlit("&lt;");
    reveal_strlit("&gt;");
    reveal_strlit("&quot;");
    if s.len() > 0 {
        let d = html_text(s.drop_last());
        let e = html_char(s.last());
        let all = html_text(s);
        escaped_text_is_inert(s.drop_last());
        assert(all == d + e);
        assert forall|i: int| 0 <= i < all.len() implies (#[trigger] all[i]) != '<' && all[i] != '>'
            && all[i] != '"' by {
            if i < d.len() {
                assert(all[i] == d[i]);
            } else {
                assert(all[i] == e[i - d.len()]);
            }
        }
    }
}

/// What a reader of HTML makes of a text: the four names of characters that are used
/// here stand for the characters, and everything else for itself.
pub open spec fn html_read(s: Seq<char>) -> Seq<char>
    decreases s.len(),
{
    if s.len() == 0 {
        Seq::empty()
    } else if s.len() >= 5 && s.take(5) == "&amp;"@ {
        seq!['&'] + html_read(s.skip(5))
    } else if s.len() >= 4 && s.take(4) == "&lt;"@ {
        seq!['<'] + html_read(s.skip(4))
    } else if s.len() >= 4 && s.take(4) == "&gt;"@ {
        seq!['>'] + html_read(s.skip(4))
    } else if s.len() >= 6 && s.take(6) == "&quot;"@ {
        seq!['"'] + html_read(s.skip(6))
    } else {
        seq![s[0]] + html_read(s.drop_first())
    }
}

proof fn lemma_html_read(s: Seq<char>, rest: Seq<char>)
    ensures
        html_read(html_text(s) + rest) == s + html_read(rest),
    decreases s.len(),
{
    reveal_strlit("&amp;");
    reveal_strlit("&lt;");
    reveal_strlit("&gt;");
    reveal_strlit("&quot;");
    if s.len() == 0 {
        assert(html_text(s) + rest == rest);
        assert(s + html_read(rest) == html_read(rest));
    } else {
        let d = s.drop_last();
        let c = s.last();
        let e = html_char(c);
        let w = e + rest;
        lemma_html_read(d, w);
        assert(html_text(s) + rest == html_text(d) + w);
        assert(html_read(w) == seq![c] + html_read(rest)) by {
            assert(w.skip(e.len() as int) == rest);
            assert(w.take(e.len() as int) == e);
            assert(w[0] == e[0]);
            if c == '&' || c == '<' || c == '>' || c == '"' {
                assert(w[1] == e[1] && w[2] == e[2]);
                if w.len() >= 5 {
                    assert(w.take(5)[1] == w[1]);
                }
                if w.len() >= 4 {
                    assert(w.take(4)[1] == w[1]);
                }
            } else {
                assert(w.drop_first() == rest);
                if w.len() >= 5 {
                    assert(w.take(5)[0] == w[0]);
                }
                if w.len() >= 4 {
                    assert(w.take(4)[0] == w[0]);
                }
                if w.len() >= 6 {
                    assert(w.take(6)[0] == w[0]);
                }
            }
        }
        assert(d + (seq![c] + html_read(rest)) == s + html_read(rest));
    }
}

/// A text in HTML reads as the text.
pub proof fn escaped_text_is_read_back(s: Seq<char>)
    ensures
        html_read(html_text(s)) == s,
{
    lemma_html_read(s, Seq::empty());
    assert(html_text(s) + Seq::<char>::empty() == html_text(s));
    assert(s + html_read(Seq::empty()) == s);
}

/// The bookmark runs the bookmarklet: its address is the source, encoded so that it is
/// read back as it is.
pub proof fn bookmark_runs_the_bookmarklet(addr: Seq<char>)
    ensures
        text::begins(bookmarklet_link(addr), "javascript:"@),
        form::url_decoded(bookmarklet_link(addr).skip("javascript:"@.len() as int))
            == bookmarklet_text(addr),
{
    let b = bookmarklet_text(addr);
    let l = bookmarklet_link(addr);
    let n = "javascript:"@.len() as int;
    assert(l.take(n) == "javascript:"@);
    assert(l.skip(n) == form::url_encoded(b));
    form::encoded_text_is_read_back(b);
}

/// The page that answers what was sent shows where it was stored, or why it was not, as text
/// that no browser takes for anything else.
pub proof fn replies_show_the_outcome(s: Seq<char>)
    ensures
        search::occurs(success_text(s), html_text(s)),
        search::occurs(failure_text(s), html_text(s)),
        html_read(html_text(s)) == s,
{
    search::lemma_has_middle(SUCCESS_HEAD@, html_text(s), SUCCESS_TAIL@);
    search::lemma_has_middle(
        "<!DOCTYPE html><html><body style='font-family:system-ui;padding:2rem'><h1>Send failed</h1><pre>"@,
        html_text(s),
        "</pre><p><a href='javascript:window.close()'>Close</a></p></body></html>"@,
    );
    escaped_text_is_read_back(s);
}

/// The page that offers the bookmarklet shows the address that is listened on, holds the
/// bookmark that runs it, and shows its source; and the bookmarklet sends to that address.
pub proof fn the_page_offers_the_bookmarklet(addr: Seq<char>)
    ensures
        search::occurs(install_text(addr), addr),
        search::occurs(install_text(addr), html_text(bookmarklet_link(addr))),
        html_read(html_text(bookmarklet_link(addr))) == bookmarklet_link(addr),
        search::occurs(install_text(addr), json::json_text(bookmarklet_text(addr))),
        search::occurs(bookmarklet_text(addr), addr),
{
    let link = html_text(bookmarklet_link(addr));
    let js = json::json_text(bookmarklet_text(addr));
    let s1 = INSTALL_HEAD@ + addr;
    let s2 = s1 + INSTALL_ADDRESS@;
    let s3 = s2 + link;
    let s4 = s3 + INSTALL_BOOKMARK@;
    let s5 = s4 + js;
    search::lemma_occurs_itself(addr);
    search::lemma_occurs_itself(link);
    search::lemma_occurs_itself(js);
    search::lemma_occurs_add(INSTALL_HEAD@, addr);
    search::lemma_occurs_add(s1, INSTALL_ADDRESS@);
    search::lemma_occurs_add(s2, link);
    search::lemma_occurs_add(s3, INSTALL_BOOKMARK@);
    search::lemma_occurs_add(s4, js);
    search::lemma_occurs_add(s5, INSTALL_TAIL@);
    search::lemma_has_middle(BOOKMARKLET_HEAD@, addr, BOOKMARKLET_TAIL@);
    escaped_text_is_read_back(bookmarklet_link(addr));
}

} // verus!
