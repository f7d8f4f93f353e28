//! Colours for a terminal.
use vstd::prelude::*;
use vstd::string::*;

verus! {

/// Whether colours are shown: on a terminal, unless `NO_COLOR` is set.
pub fn enabled(no_color: bool, stdout_is_terminal: bool) -> (r: bool)
    ensures
        r == (!no_color && stdout_is_terminal),
{
    !no_color && stdout_is_terminal
}

/// A text between the escape sequence of a style and the one that ends it;
/// where colours are off, the text alone.
pub open spec fn styled(code: Seq<char>, s: Seq<char>, enabled: bool) -> Seq<char> {
    if enabled {
        "\x1b["@ + code + "m"@ + s + "\x1b[0m"@
    } else {
        s
    }
}

fn wrap(code: &str, s: &str, enabled: bool) -> (r: String)
    ensures
        r@ == styled(code@, s@, enabled),
{
    if enabled {
        let mut out: String = "\x1b[".to_string();
        out.append(code);
        out.append("m");
        out.append(s);
        out.append("\x1b[0m");
        out
    } else {
        s.to_string()
    }
}

/// The text, bold.
pub fn bold(s: &str, enabled: bool) -> (r: String)
    ensures
        r@ == styled("1"@, s@, enabled),
{
    wrap("1", s, enabled)
}

/// The text, dimmed.
pub fn dim(s: &str, enabled: bool) -> (r: String)
    ensures
        r@ == styled("2"@, s@, enabled),
{
    wrap("2", s, enabled)
}

/// The text, red.
pub fn red(s: &str, enabled: bool) -> (r: String)
    ensures
        r@ == styled("31"@, s@, enabled),
{
    wrap("31", s, enabled)
}

/// The text, green.
pub fn green(s: &str, enabled: bool) -> (r: String)
    ensures
        r@ == styled("32"@, s@, enabled),
{
    wrap("32", s, enabled)
}

/// The text, yellow.
pub fn yellow(s: &str, enabled: bool) -> (r: String)
    ensures
        r@ == styled("33"@, s@, enabled),
{
    wrap("33", s, enabled)
}

/// The text, blue.
pub fn blue(s: &str, enabled: bool) -> (r: String)
    ensures
        r@ == styled("34"@, s@, enabled),
{
    wrap("34", s, enabled)
}

/// The text, magenta.
pub fn magenta(s: &str, enabled: bool) -> (r: String)
    ensures
        r@ == styled("35"@, s@, enabled),
{
    wrap("35", s, enabled)
}

/// The text, cyan.
pub fn cyan(s: &str, enabled: bool) -> (r: String)
    ensures
        r@ == styled("36"@, s@, enabled),
{
    wrap("36", s, enabled)
}

/// The text, bold and red.
pub fn bold_red(s: &str, enabled: bool) -> (r: String)
    ensures
        r@ == styled("1;31"@, s@, enabled),
{
    wrap("1;31", s, enabled)
}

/// The text, bold and green.
pub fn bold_green(s: &str, enabled: bool) -> (r: String)
    ensures
        r@ == styled("1;32"@, s@, enabled),
{
    wrap("1;32", s, enabled)
}

/// The text, bold and yellow.
pub fn bold_yellow(s: &str, enabled: bool) -> (r: String)
    ensures
        r@ == styled("1;33"@, s@, enabled),
{
    wrap("1;33", s, enabled)
}

/// The text, bold and cyan.
pub fn bold_cyan(s: &str, enabled: bool) -> (r: String)
    ensures
        r@ == styled("1;36"@, s@, enabled),
{
    wrap("1;36", s, enabled)
}

/// A styled text is the text itself behind an escape sequence with the code, and
/// before the one that ends the style; without colours it is the text alone.
pub proof fn law_style_wraps_the_text(code: Seq<char>, s: Seq<char>)
    ensures
        styled(code, s, false) == s,
        ({
            let out = styled(code, s, true);
            let n = code.len() as int + 3;
            &&& out.len() == n + s.len() + 4
            &&& out.subrange(n, n + s.len()) == s
            &&& out.subrange(2, 2 + code.len() as int) == code
            &&& out[0] == '\x1b' && out[1] == '[' && out[n - 1] == 'm'
            &&& out.skip(n + s.len()) == seq!['\x1b', '[', '0', 'm']
        }),
{
    reveal_strlit("\x1b[");
    reveal_strlit("m");
    reveal_strlit("\x1b[0m");
    let out = styled(code, s, true);
    let n = code.len() as int + 3;
    assert(out.subrange(n, n + s.len()) =~= s);
    assert(out.subrange(2, 2 + code.len() as int) =~= code);
    assert(out.skip(n + s.len()) =~= seq!['\x1b', '[', '0', 'm']);
}

} // verus!
