//! Per-server text tags: the names of their tables and the texts shown for them.
use crate::text::nat_text;
use crate::text::push_nat;
use std::sync::Arc;
use vstd::prelude::*;

verus! {

/// The store of text tags, one table per server.
pub struct TagDb;

/// The data that every command of the bot is handed.
pub struct Data {
    pub tag_db: Arc<TagDb>,
}

/// Why a command cannot find the server it runs in.
pub enum CtxError {
    /// The command was not run in a server.
    NotGuild(),
    /// The chat service failed, with its message.
    Discord(String),
}

/// The characters that chat markdown gives a meaning to.
pub open spec fn is_markdown_char(c: char) -> bool {
    c == '`' || c == '*' || c == '_' || c == '~' || c == '#' || c == '<' || c == '>' || c == '|'
}

/// A text with a backslash before each markdown character.
pub open spec fn escaped(s: Seq<char>) -> Seq<char>
    decreases s.len(),
{
    if s.len() == 0 {
        seq![]
    } else if is_markdown_char(s.last()) {
        escaped(s.drop_last()) + seq!['\\', s.last()]
    } else {
        escaped(s.drop_last()).push(s.last())
    }
}

/// A text with a backslash before each backtick.
pub open spec fn escaped_backticks(s: Seq<char>) -> Seq<char>
    decreases s.len(),
{
    if s.len() == 0 {
        seq![]
    } else if s.last() == '`' {
        escaped_backticks(s.drop_last()) + seq!['\\', '`']
    } else {
        escaped_backticks(s.drop_last()).push(s.last())
    }
}

/// The name of the table that holds a server's tags.
pub open spec fn table_name_text(guild_id: u64) -> Seq<char> {
    "tags_"@ + nat_text(guild_id as nat)
}

/// The text shown for a list of tag names: the names joined by `", "`.
pub open spec fn joined(names: Seq<Seq<char>>) -> Seq<char>
    decreases names.len(),
{
    if names.len() == 0 {
        seq![]
    } else if names.len() == 1 {
        names[0]
    } else {
        joined(names.drop_last()) + seq![',', ' '] + names.last()
    }
}

impl TagDb {
    pub fn new() -> (r: TagDb) {
        TagDb
    }

    /// The name of the table that holds the tags of a server: `tags_<id>`.
    pub fn table_name(&self, guild_id: u64) -> (r: String)
        ensures
            r@ == table_name_text(guild_id),
    {
        let mut s = String::new();
        proof { reveal_strlit("tags_"); }
        s.append("tags_");
        push_nat(&mut s, guild_id as u128);
        assert(s@ =~= table_name_text(guild_id));
        s
    }
}

impl CtxError {
    /// The message shown for the error.
    pub fn message(&self) -> (r: String)
        ensures
            r@ == match self {
                CtxError::NotGuild() => "Not in Server"@,
                CtxError::Discord(e) => e@,
            },
    {
        match self {
            CtxError::NotGuild() => String::from_str("Not in Server"),
            CtxError::Discord(e) => e.clone(),
        }
    }
}

fn escape_where(s: &str, all_markdown: bool) -> (r: String)
    ensures
        r@ == if all_markdown { escaped(s@) } else { escaped_backticks(s@) },
{
    let n = s.unicode_len();
    let mut out = String::new();
    let mut i: usize = 0;
    while i < n
        invariant
            n == s@.len(),
            i <= n,
            out@ == if all_markdown { escaped(s@.take(i as int)) } else { escaped_backticks(s@.take(i as int)) },
        decreases n - i,
    {
        let c = s.get_char(i);
        let one = s.substring_char(i, i + 1);
        assert(one@ =~= seq![c]);
        let ghost before = out@;
        let special = if all_markdown {
            c == '`' || c == '*' || c == '_' || c == '~' || c == '#' || c == '<' || c == '>' || c == '|'
        } else {
            c == '`'
        };
        if special {
            proof { reveal_strlit("\\"); }
            out.append("\\");
        }
        out.append(one);
        assert(s@.take(i + 1).drop_last() =~= s@.take(i as int));
        assert(s@.take(i + 1).last() == c);
        assert(out@ =~= if all_markdown { escaped(s@.take(i + 1)) } else { escaped_backticks(s@.take(i + 1)) });
        i += 1;
    }
    assert(s@.take(i as int) =~= s@);
    out
}

/// A tag's content as raw text: a backslash before each markdown character,
/// so that chat shows the characters themselves.
pub fn escape_markdown(content: &str) -> (r: String)
    ensures
        r@ == escaped(content@),
{
    escape_where(content, true)
}

/// The message for a tag that does not exist, its name's backticks escaped.
pub fn missing_tag_message(name: &str) -> (r: String)
    ensures
        r@ == "\u{274c} Tag `"@ + escaped_backticks(name@) + "` does not exist"@,
{
    let mut s = String::from_str("\u{274c} Tag `");
    let e = escape_where(name, false);
    s.append(e.as_str());
    s.append("` does not exist");
    s
}

/// The text of a server's tag list: the names joined by `", "`, or a hint to
/// create one where there is none.
pub fn tag_list_text(names: &Vec<String>) -> (r: String)
    ensures
        names@.len() == 0 ==> r@ == "No tags found. Try creating a tag with `/tag create`"@,
        names@.len() > 0 ==> r@ == joined(names@.map_values(|n: String| n@)),
{
    if names.len() == 0 {
        return String::from_str("No tags found. Try creating a tag with `/tag create`");
    }
    let ghost ids = names@.map_values(|n: String| n@);
    let mut out = names[0].clone();
    let mut i: usize = 1;
    assert(ids.take(1) =~= seq![ids[0]]);
    while i < names.len()
        invariant
            1 <= i <= names@.len(),
            ids == names@.map_values(|n: String| n@),
            out@ == joined(ids.take(i as int)),
        decreases names@.len() - i,
    {
        proof { reveal_strlit(", "); }
        out.append(", ");
        out.append(names[i].as_str());
        assert(ids.take(i + 1).drop_last() =~= ids.take(i as int));
        assert(out@ =~= joined(ids.take(i + 1)));
        i += 1;
    }
    assert(ids.take(i as int) =~= ids);
    out
}

} // verus!
