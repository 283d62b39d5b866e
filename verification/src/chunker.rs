//! How documents are cut into chunks.

use vstd::prelude::*;
use vstd::string::*;

use crate::text::{chars_of, same_text, text_of};

verus! {

/// Parameters of the chunker. What is `None` takes the preset's default.
#[derive(Debug, PartialEq, Eq)]
pub struct ChunkerConfig {
    pub preset: String,
    pub target_tokens: Option<usize>,
    pub overlap_tokens: Option<usize>,
    pub window_turns: Option<usize>,
    pub stride_turns: Option<usize>,
}

impl Clone for ChunkerConfig {
    fn clone(&self) -> (r: ChunkerConfig)
        ensures
            r == *self,
    {
        ChunkerConfig {
            preset: self.preset.clone(),
            target_tokens: self.target_tokens,
            overlap_tokens: self.overlap_tokens,
            window_turns: self.window_turns,
            stride_turns: self.stride_turns,
        }
    }
}

/// The target size of a preset, in its own unit.
pub open spec fn preset_target(preset: Seq<char>) -> usize {
    if preset == "code"@ {
        3000
    } else if preset == "messages"@ {
        512
    } else {
        256
    }
}

impl ChunkerConfig {
    /// Whether this is the preset `name` with its defaults.
    pub open spec fn is_preset(self, name: Seq<char>) -> bool {
        &&& self.preset@ == name
        &&& self.target_tokens is None
        &&& self.overlap_tokens is None
        &&& self.window_turns is None
        &&& self.stride_turns is None
    }

    /// The target size in effect.
    pub open spec fn target(self) -> usize {
        match self.target_tokens {
            Some(n) => n,
            None => preset_target(self.preset@),
        }
    }

    /// The overlap in effect.
    pub open spec fn overlap(self) -> usize {
        match self.overlap_tokens {
            Some(n) => n,
            None => 0,
        }
    }

    fn of_preset(name: &str) -> (r: ChunkerConfig)
        ensures
            r.is_preset(name@),
    {
        ChunkerConfig {
            preset: name.to_owned(),
            target_tokens: None,
            overlap_tokens: None,
            window_turns: None,
            stride_turns: None,
        }
    }

    /// Running text, sized in tokens.
    pub fn prose() -> (r: ChunkerConfig)
        ensures
            r.is_preset("prose"@),
    {
        ChunkerConfig::of_preset("prose")
    }

    /// Source code, sized in characters.
    pub fn code() -> (r: ChunkerConfig)
        ensures
            r.is_preset("code"@),
    {
        ChunkerConfig::of_preset("code")
    }

    /// Conversations, cut into sliding windows of turns.
    pub fn messages() -> (r: ChunkerConfig)
        ensures
            r.is_preset("messages"@),
    {
        ChunkerConfig::of_preset("messages")
    }

    /// The target size in effect.
    pub fn resolved_target_tokens(&self) -> (r: usize)
        ensures
            r == self.target(),
    {
        match self.target_tokens {
            Some(n) => n,
            None => if same_text(self.preset.as_str(), "code") {
                3000
            } else if same_text(self.preset.as_str(), "messages") {
                512
            } else {
                256
            },
        }
    }

    /// The overlap in effect.
    pub fn resolved_overlap_tokens(&self) -> (r: usize)
        ensures
            r == self.overlap(),
    {
        match self.overlap_tokens {
            Some(n) => n,
            None => 0,
        }
    }

    /// The number of turns of a window in effect.
    pub fn resolved_window_turns(&self) -> (r: usize)
        ensures
            r == (match self.window_turns {
                Some(n) => n,
                None => 6,
            }),
    {
        match self.window_turns {
            Some(n) => n,
            None => 6,
        }
    }
}

/// Scales a prose budget from tokens to characters, at four characters a token.
/// Other presets stay as they are.
pub fn scale_to_chars(config: &ChunkerConfig) -> (r: ChunkerConfig)
    requires
        config.preset@ == "prose"@ ==> config.target() * 4 <= usize::MAX && config.overlap() * 4
            <= usize::MAX,
    ensures
        config.preset@ != "prose"@ ==> r == *config,
        config.preset@ == "prose"@ ==> r == (ChunkerConfig {
            preset: config.preset,
            target_tokens: Some((config.target() * 4) as usize),
            overlap_tokens: Some((config.overlap() * 4) as usize),
            window_turns: config.window_turns,
            stride_turns: config.stride_turns,
        }),
{
    if !same_text(config.preset.as_str(), "prose") {
        return config.clone();
    }
    ChunkerConfig {
        preset: config.preset.clone(),
        target_tokens: Some(config.resolved_target_tokens() * 4),
        overlap_tokens: Some(config.resolved_overlap_tokens() * 4),
        window_turns: config.window_turns,
        stride_turns: config.stride_turns,
    }
}

/// The file name extensions of source code.
pub open spec fn is_code_extension(extension: Seq<char>) -> bool {
    ||| extension == "rs"@
    ||| extension == "py"@
    ||| extension == "js"@
    ||| extension == "ts"@
    ||| extension == "go"@
    ||| extension == "java"@
    ||| extension == "c"@
    ||| extension == "h"@
    ||| extension == "cpp"@
    ||| extension == "rb"@
    ||| extension == "sh"@
}

/// What follows the last dot of a file name, where there is one.
pub open spec fn extension_of(name: Seq<char>) -> Option<Seq<char>>
    decreases name.len(),
{
    if name.len() == 0 {
        None
    } else if name.last() == '.' {
        Some(Seq::empty())
    } else {
        match extension_of(name.drop_last()) {
            Some(e) => Some(e.push(name.last())),
            None => None,
        }
    }
}

/// What follows the last dot of `name`, where there is one.
pub fn file_extension(name: &str) -> (r: Option<String>)
    ensures
        r is Some == extension_of(name@) is Some,
        r matches Some(e) ==> extension_of(name@) == Some(e@),
{
    let chars = chars_of(name);
    let n: usize = chars.len();
    let mut i: usize = n;
    proof {
        assert(name@.take(n as int) =~= name@);
    }
    while i > 0
        invariant
            0 <= i <= n,
            n == chars@.len(),
            chars@ == name@,
            extension_of(name@) == (match extension_of(name@.take(i as int)) {
                Some(e) => Some(e + name@.subrange(i as int, n as int)),
                None => None::<Seq<char>>,
            }),
        decreases i,
    {
        proof {
            let now = name@.take(i as int);
            assert(now.last() == name@[i - 1]);
            assert(now.drop_last() =~= name@.take(i - 1));
        }
        if chars[i - 1] == '.' {
            let out = text_of(chars.as_slice(), i, n);
            proof {
                assert(Seq::<char>::empty() + name@.subrange(i as int, n as int) =~= out@);
            }
            return Some(out);
        }
        proof {
            if let Some(e) = extension_of(name@.take(i - 1)) {
                assert(e.push(name@[i - 1]) + name@.subrange(i as int, n as int) =~= e
                    + name@.subrange(i - 1, n as int));
            }
        }
        i -= 1;
    }
    None
}

/// Whether the MIME type `mime` is one of source code.
pub open spec fn is_code_mime(mime: Seq<char>) -> bool {
    ||| mime == "text/x-rust"@
    ||| mime == "text/x-python"@
    ||| mime == "text/javascript"@
    ||| mime == "text/x-c"@
}

/// Whether a file is chunked as source code: its extension decides, and where
/// it has no name with an extension, its MIME type.
pub open spec fn routes_to_code(filename: Option<Seq<char>>, mime: Option<Seq<char>>) -> bool {
    match filename {
        Some(name) if extension_of(name) is Some => is_code_extension(extension_of(name)->0),
        _ => match mime {
            Some(m) => is_code_mime(m),
            None => false,
        },
    }
}

/// The text of a borrowed optional text.
pub open spec fn borrowed_text(o: Option<&str>) -> Option<Seq<char>> {
    match o {
        Some(s) => Some(s@),
        None => None,
    }
}

/// The preset that suits a file: `"code"` or `"prose"`.
pub fn preset_for(filename_hint: Option<&str>, mime: Option<&str>) -> (r: &'static str)
    ensures
        r@ == (if routes_to_code(borrowed_text(filename_hint), borrowed_text(mime)) {
            "code"@
        } else {
            "prose"@
        }),
{
    let extension = match filename_hint {
        Some(name) => file_extension(name),
        None => None,
    };
    let code: bool = match extension {
        Some(e) => {
            let x = e.as_str();
            same_text(x, "rs") || same_text(x, "py") || same_text(x, "js") || same_text(x, "ts")
                || same_text(x, "go") || same_text(x, "java") || same_text(x, "c") || same_text(
                x,
                "h",
            ) || same_text(x, "cpp") || same_text(x, "rb") || same_text(x, "sh")
        },
        None => match mime {
            Some(m) => same_text(m, "text/x-rust") || same_text(m, "text/x-python") || same_text(
                m,
                "text/javascript",
            ) || same_text(m, "text/x-c"),
            None => false,
        },
    };
    if code {
        "code"
    } else {
        "prose"
    }
}

/// The chunker configuration for one resource. A source whose preset is not
/// `"prose"` is authoritative; a prose source hands files of source code to the
/// code preset.
pub fn effective_chunker_config(
    source_preset: &str,
    base_chunker: &ChunkerConfig,
    filename_hint: Option<&str>,
    mime: Option<&str>,
) -> (r: ChunkerConfig)
    ensures
        source_preset@ == "prose"@ && routes_to_code(
            borrowed_text(filename_hint),
            borrowed_text(mime),
        ) ==> r.is_preset("code"@),
        !(source_preset@ == "prose"@ && routes_to_code(
            borrowed_text(filename_hint),
            borrowed_text(mime),
        )) ==> r == *base_chunker,
{
    if !same_text(source_preset, "prose") {
        return base_chunker.clone();
    }
    proof {
        reveal_strlit("code");
        reveal_strlit("prose");
        assert("code"@.len() != "prose"@.len());
    }
    if same_text(preset_for(filename_hint, mime), "code") {
        ChunkerConfig::code()
    } else {
        base_chunker.clone()
    }
}

/// A size that is given counts. Where none is given, code has 3000 characters,
/// messages have 512 tokens and everything else has 256, without overlap.
pub proof fn law_sizes_in_effect(c: ChunkerConfig)
    ensures
        c.target_tokens matches Some(n) ==> c.target() == n,
        c.target_tokens is None && c.preset@ == "code"@ ==> c.target() == 3000,
        c.target_tokens is None && c.preset@ == "messages"@ ==> c.target() == 512,
        c.target_tokens is None && c.preset@ != "code"@ && c.preset@ != "messages"@ ==> c.target()
            == 256,
        c.overlap_tokens matches Some(n) ==> c.overlap() == n,
        c.overlap_tokens is None ==> c.overlap() == 0,
{
    reveal_strlit("code");
    reveal_strlit("messages");
    assert("code"@.len() != "messages"@.len());
}

/// A file whose name ends in a dot and `extension` is source code, whatever its MIME
/// type says, if and only if the extension is one of eleven.
pub proof fn law_what_is_source_code(
    stem: Seq<char>,
    extension: Seq<char>,
    mime: Option<Seq<char>>,
)
    requires
        !extension.contains('.'),
    ensures
        routes_to_code(Some(stem + seq!['.'] + extension), mime) <==> seq![
            "rs"@,
            "py"@,
            "js"@,
            "ts"@,
            "go"@,
            "java"@,
            "c"@,
            "h"@,
            "cpp"@,
            "rb"@,
            "sh"@,
        ].contains(extension),
        routes_to_code(None, Some(extension)) <==> seq![
            "text/x-rust"@,
            "text/x-python"@,
            "text/javascript"@,
            "text/x-c"@,
        ].contains(extension),
        !routes_to_code(None, None),
{
    let known = seq![
        "rs"@,
        "py"@,
        "js"@,
        "ts"@,
        "go"@,
        "java"@,
        "c"@,
        "h"@,
        "cpp"@,
        "rb"@,
        "sh"@,
    ];
    assert(known[0] == "rs"@);
    assert(known[1] == "py"@);
    assert(known[2] == "js"@);
    assert(known[3] == "ts"@);
    assert(known[4] == "go"@);
    assert(known[5] == "java"@);
    assert(known[6] == "c"@);
    assert(known[7] == "h"@);
    assert(known[8] == "cpp"@);
    assert(known[9] == "rb"@);
    assert(known[10] == "sh"@);
    let types = seq!["text/x-rust"@, "text/x-python"@, "text/javascript"@, "text/x-c"@];
    assert(types[0] == "text/x-rust"@);
    assert(types[1] == "text/x-python"@);
    assert(types[2] == "text/javascript"@);
    assert(types[3] == "text/x-c"@);
    lemma_extension_of(stem, extension);
}

proof fn lemma_extension_of(stem: Seq<char>, extension: Seq<char>)
    requires
        !extension.contains('.'),
    ensures
        extension_of(stem + seq!['.'] + extension) == Some(extension),
    decreases extension.len(),
{
    let name = stem + seq!['.'] + extension;
    if extension.len() == 0 {
        assert(name.last() == '.');
        assert(extension =~= Seq::empty());
    } else {
        let front = extension.drop_last();
        assert(extension[extension.len() - 1] == extension.last());
        assert(!front.contains('.')) by {
            if front.contains('.') {
                let i = front.index_of('.');
                assert(extension[i] == '.');
            }
        }
        lemma_extension_of(stem, front);
        assert(name.drop_last() =~= stem + seq!['.'] + front);
        assert(front.push(extension.last()) =~= extension);
    }
}

} // verus!
