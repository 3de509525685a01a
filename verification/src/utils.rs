//! Small helpers around the engine: escaping, asset naming by content
//! hash, and HTML snippets for external assets.

use vstd::prelude::*;

use crate::textutil::{chars_to_string, push_chars, str_to_chars};

verus! {

/// What one character escapes to.
pub open spec fn escaped_char(c: char) -> Seq<char> {
    if c == '\\' {
        "\\\\"@
    } else if c == '"' {
        "\\\""@
    } else if c == '\n' {
        "\\n"@
    } else if c == '\r' {
        "\\r"@
    } else if c == '\t' {
        "\\t"@
    } else if c == '\0' {
        "\\0"@
    } else {
        seq![c]
    }
}

/// The whole text with every special character escaped.
pub open spec fn escaped_text(s: Seq<char>) -> Seq<char>
    decreases s.len(),
{
    if s.len() == 0 {
        Seq::empty()
    } else {
        escaped_text(s.drop_last()) + escaped_char(s.last())
    }
}

/// Escapes backslashes, quotes and control characters.
pub fn escape_string(s: &str) -> (r: String)
    ensures
        r@ == escaped_text(s@),
{
    let chars = str_to_chars(s);
    let mut out: Vec<char> = Vec::new();
    let n = chars.len();
    proof {
        assert(chars@.take(0) =~= Seq::<char>::empty());
    }
    for i in 0..n
        invariant
            n == chars@.len(),
            chars@ == s@,
            out@ == escaped_text(chars@.take(i as int)),
    {
        let c = chars[i];
        match c {
            '\\' => push_chars(&mut out, "\\\\"),
            '"' => push_chars(&mut out, "\\\""),
            '\n' => push_chars(&mut out, "\\n"),
            '\r' => push_chars(&mut out, "\\r"),
            '\t' => push_chars(&mut out, "\\t"),
            '\0' => push_chars(&mut out, "\\0"),
            _ => {
                out.push(c);
                proof {
                    assert(escaped_char(c) =~= seq![c]);
                }
            },
        }
        proof {
            assert(chars@.take(i + 1).drop_last() =~= chars@.take(i as int));
            assert(chars@.take(i + 1).last() == chars@[i as int]);
            assert(out@ =~= escaped_text(chars@.take(i as int)) + escaped_char(chars@[i as int]));
        }
    }
    proof {
        assert(chars@.take(n as int) =~= chars@);
    }
    chars_to_string(&out)
}

/// What one character of an identifier becomes in a cache key.
pub open spec fn cache_key_char(c: char) -> char {
    if c == '/' || c == '\\' {
        '_'
    } else {
        c
    }
}

/// Turns a document identifier into a flat cache key: path separators
/// become underscores.
pub fn id_to_cache_key(id: &str) -> (r: String)
    ensures
        r@ == id@.map_values(|c: char| cache_key_char(c)),
{
    let chars = str_to_chars(id);
    let mut out: Vec<char> = Vec::new();
    let n = chars.len();
    for i in 0..n
        invariant
            n == chars@.len(),
            chars@ == id@,
            out@ == chars@.take(i as int).map_values(|c: char| cache_key_char(c)),
    {
        let c = chars[i];
        if c == '/' || c == '\\' {
            out.push('_');
        } else {
            out.push(c);
        }
        proof {
            assert(out@ =~= chars@.take(i + 1).map_values(|c: char| cache_key_char(c)));
        }
    }
    proof {
        assert(chars@.take(n as int) =~= chars@);
    }
    chars_to_string(&out)
}

/// One script tag per external script, in order.
pub open spec fn external_js_text(urls: Seq<String>) -> Seq<char>
    decreases urls.len(),
{
    if urls.len() == 0 {
        Seq::empty()
    } else {
        external_js_text(urls.drop_last()) + "<script src=\""@ + urls.last()@ + "\"></script>"@
    }
}

/// Builds the script tags for a list of external scripts.
pub fn get_external_js_html(external_js: &Vec<String>) -> (r: String)
    ensures
        r@ == external_js_text(external_js@),
{
    let mut out: Vec<char> = Vec::new();
    let n = external_js.len();
    proof {
        assert(external_js@.take(0) =~= Seq::<String>::empty());
    }
    for i in 0..n
        invariant
            n == external_js@.len(),
            out@ == external_js_text(external_js@.take(i as int)),
    {
        push_chars(&mut out, "<script src=\"");
        push_chars(&mut out, external_js[i].as_str());
        push_chars(&mut out, "\"></script>");
        proof {
            assert(external_js@.take(i + 1).drop_last() =~= external_js@.take(i as int));
            assert(external_js@.take(i + 1).last() == external_js@[i as int]);
        }
    }
    proof {
        assert(external_js@.take(n as int) =~= external_js@);
    }
    chars_to_string(&out)
}

/// One stylesheet link per external stylesheet, in order.
pub open spec fn external_css_text(urls: Seq<String>) -> Seq<char>
    decreases urls.len(),
{
    if urls.len() == 0 {
        Seq::empty()
    } else {
        external_css_text(urls.drop_last()) + "<link rel=\"stylesheet\" href=\""@ + urls.last()@
            + ".css\">"@
    }
}

/// Builds the stylesheet links for a list of external stylesheets.
pub fn get_external_css_html(external_css: &Vec<String>) -> (r: String)
    ensures
        r@ == external_css_text(external_css@),
{
    let mut out: Vec<char> = Vec::new();
    let n = external_css.len();
    proof {
        assert(external_css@.take(0) =~= Seq::<String>::empty());
    }
    for i in 0..n
        invariant
            n == external_css@.len(),
            out@ == external_css_text(external_css@.take(i as int)),
    {
        push_chars(&mut out, "<link rel=\"stylesheet\" href=\"");
        push_chars(&mut out, external_css[i].as_str());
        push_chars(&mut out, ".css\">");
        proof {
            assert(external_css@.take(i + 1).drop_last() =~= external_css@.take(i as int));
            assert(external_css@.take(i + 1).last() == external_css@[i as int]);
        }
    }
    proof {
        assert(external_css@.take(n as int) =~= external_css@);
    }
    chars_to_string(&out)
}

/// The request headers a proxy strips before forwarding.
pub fn ignore_headers() -> (r: Vec<String>)
    ensures
        r@.len() == 2,
        r@[0]@ == "host"@,
        r@[1]@ == "x-forwarded-ssl"@,
{
    let mut r: Vec<String> = Vec::new();
    r.push(String::from_str("host"));
    r.push(String::from_str("x-forwarded-ssl"));
    r
}

/// A case-insensitive text, as the database stores it.
#[derive(Debug, Clone)]
pub struct CiString(pub String);

/// Wraps a text as case-insensitive.
pub fn citext(s: &str) -> (r: CiString)
    ensures
        r.0@ == s@,
{
    CiString(String::from_str(s))
}

/// What SHA-256 digests a byte sequence to: 32 bytes, a function of the
/// input alone.
pub uninterp spec fn sha256_of(bytes: Seq<u8>) -> Seq<u8>;

/// Relies on sha2's `Sha256::digest`: the 32-byte SHA-256 digest of the
/// bytes, a function of the bytes alone.
#[verifier::external_body]
fn sha256_digest(content: &Vec<u8>) -> (r: Vec<u8>)
    ensures
        r@ == sha256_of(content@),
        r@.len() == 32,
{
    <sha2::Sha256 as sha2::Digest>::digest(content).to_vec()
}

/// The uppercase hex digit of a value below sixteen.
pub open spec fn hex_digit(d: int) -> char {
    if d < 10 {
        ((48 + d) as u8) as char
    } else {
        ((55 + d) as u8) as char
    }
}

/// The uppercase hex writing of a byte sequence, two digits per byte.
pub open spec fn upper_hex_text(bytes: Seq<u8>) -> Seq<char>
    decreases bytes.len(),
{
    if bytes.len() == 0 {
        Seq::empty()
    } else {
        upper_hex_text(bytes.drop_last()) + seq![
            hex_digit(bytes.last() as int / 16),
            hex_digit(bytes.last() as int % 16),
        ]
    }
}

fn push_hex(out: &mut Vec<char>, bytes: &Vec<u8>)
    ensures
        final(out)@ == old(out)@ + upper_hex_text(bytes@),
{
    let n = bytes.len();
    proof {
        assert(bytes@.take(0) =~= Seq::<u8>::empty());
        assert(old(out)@ + upper_hex_text(bytes@.take(0)) =~= old(out)@);
    }
    for i in 0..n
        invariant
            n == bytes@.len(),
            out@ == old(out)@ + upper_hex_text(bytes@.take(i as int)),
    {
        let b = bytes[i];
        let hi: u8 = b / 16;
        let lo: u8 = b % 16;
        let hic: char = if hi < 10 {
            (48 + hi) as char
        } else {
            (55 + hi) as char
        };
        let loc: char = if lo < 10 {
            (48 + lo) as char
        } else {
            (55 + lo) as char
        };
        out.push(hic);
        out.push(loc);
        proof {
            assert(bytes@.take(i + 1).drop_last() =~= bytes@.take(i as int));
            assert(bytes@.take(i + 1).last() == bytes@[i as int]);
            assert(hic == hex_digit(bytes@[i as int] as int / 16));
            assert(loc == hex_digit(bytes@[i as int] as int % 16));
            assert(out@ =~= old(out)@ + upper_hex_text(bytes@.take(i + 1)));
        }
    }
    proof {
        assert(bytes@.take(n as int) =~= bytes@);
    }
}

/// The content hash a file is published under: the uppercase hex SHA-256
/// of its bytes.
pub fn generate_hash(content: &Vec<u8>) -> (r: String)
    ensures
        r@ == upper_hex_text(sha256_of(content@)),
{
    let digest = sha256_digest(content);
    let mut out: Vec<char> = Vec::new();
    push_hex(&mut out, &digest);
    chars_to_string(&out)
}

/// The name a hashed asset is published under: a prefix, the content
/// hash, and an extension.
pub open spec fn hashed_name(prefix: Seq<char>, content: Seq<u8>, ext: Seq<char>) -> Seq<char> {
    prefix + upper_hex_text(sha256_of(content)) + ext
}

fn hashed_asset_name(prefix: &str, content: &str, ext: &str) -> (r: String)
    ensures
        r@ == hashed_name(prefix@, crate::merge::utf8_encode(content@), ext@),
{
    let bytes = crate::merge::text_to_bytes(content);
    let digest = sha256_digest(&bytes);
    let mut out: Vec<char> = Vec::new();
    push_chars(&mut out, prefix);
    push_hex(&mut out, &digest);
    push_chars(&mut out, ext);
    chars_to_string(&out)
}

/// The published name of the default stylesheet with this content.
pub fn hashed_default_css_name(css: &str) -> (r: String)
    ensures
        r@ == hashed_name("default-"@, crate::merge::utf8_encode(css@), ".css"@),
{
    hashed_asset_name("default-", css, ".css")
}

/// The published name of the default script with this content.
pub fn hashed_default_js_name(js: &str) -> (r: String)
    ensures
        r@ == hashed_name("default-"@, crate::merge::utf8_encode(js@), ".js"@),
{
    hashed_asset_name("default-", js, ".js")
}

/// The published name of the generated document script with this content.
pub fn hashed_default_ftd_js(js: &str) -> (r: String)
    ensures
        r@ == hashed_name("default-"@, crate::merge::utf8_encode(js@), ".js"@),
{
    hashed_asset_name("default-", js, ".js")
}

/// The published name of the markdown script with this content.
pub fn hashed_markdown_js(js: &str) -> (r: String)
    ensures
        r@ == hashed_name("markdown-"@, crate::merge::utf8_encode(js@), ".js"@),
{
    hashed_asset_name("markdown-", js, ".js")
}

/// The published name of the highlighter script with this content.
pub fn hashed_prism_js(js: &str) -> (r: String)
    ensures
        r@ == hashed_name("prism-"@, crate::merge::utf8_encode(js@), ".js"@),
{
    hashed_asset_name("prism-", js, ".js")
}

/// The published name of the highlighter stylesheet with this content.
pub fn hashed_prism_css(css: &str) -> (r: String)
    ensures
        r@ == hashed_name("prism-"@, crate::merge::utf8_encode(css@), ".css"@),
{
    hashed_asset_name("prism-", css, ".css")
}

/// The published name of one code theme's stylesheet with this content.
pub fn hashed_code_theme_css(theme_css: &str) -> (r: String)
    ensures
        r@ == hashed_name("code-theme-"@, crate::merge::utf8_encode(theme_css@), ".css"@),
{
    hashed_asset_name("code-theme-", theme_css, ".css")
}

} // verus!
