//! The data model: conversations, messages, authors, attachments, embeds,
//! and the top-level command options.

use vstd::prelude::*;
use crate::clock::Ts;
use crate::ids::U64ReprStr;
use crate::text::{extend_chars, string_to_chars, chars_to_string};

verus! {

/// Account settings as the remote service reports them: guilds grouped into
/// folders, in display order.
#[derive(Debug, Clone)]
pub struct Settings {
    pub guild_folders: Vec<GuildFolder>,
}

/// One folder of guild identifiers.
#[derive(Debug, Clone)]
pub struct GuildFolder {
    pub guild_ids: Vec<U64ReprStr>,
}

/// Identifiers of one folder, in order.
pub open spec fn folder_ids(f: GuildFolder) -> Seq<u64> {
    f.guild_ids@.map_values(|x: U64ReprStr| x.0)
}

/// All guild identifiers of a settings value, folder by folder.
pub open spec fn spec_guild_ids(folders: Seq<GuildFolder>) -> Seq<u64>
    decreases folders.len(),
{
    if folders.len() == 0 {
        Seq::empty()
    } else {
        spec_guild_ids(folders.drop_last()) + folder_ids(folders.last())
    }
}

impl Settings {
    /// Flattens the folders into the ordered list of guild identifiers.
    pub fn guild_ids(&self) -> (r: Vec<u64>)
        ensures
            r@ == spec_guild_ids(self.guild_folders@),
    {
        let mut out: Vec<u64> = Vec::new();
        let mut i: usize = 0;
        while i < self.guild_folders.len()
            invariant
                0 <= i <= self.guild_folders@.len(),
                out@ =~= spec_guild_ids(self.guild_folders@.subrange(0, i as int)),
            decreases self.guild_folders@.len() - i,
        {
            let folder = &self.guild_folders[i];
            let mut j: usize = 0;
            while j < folder.guild_ids.len()
                invariant
                    0 <= j <= folder.guild_ids@.len(),
                    folder == &self.guild_folders@[i as int],
                    0 <= i < self.guild_folders@.len(),
                    out@ =~= spec_guild_ids(self.guild_folders@.subrange(0, i as int))
                        + folder_ids(*folder).subrange(0, j as int),
                decreases folder.guild_ids@.len() - j,
            {
                out.push(folder.guild_ids[j].0);
                j = j + 1;
            }
            proof {
                let pre = self.guild_folders@.subrange(0, (i + 1) as int);
                assert(pre.drop_last() =~= self.guild_folders@.subrange(0, i as int));
                assert(folder_ids(*folder).subrange(0, folder.guild_ids@.len() as int)
                    =~= folder_ids(*folder));
                assert(out@ =~= spec_guild_ids(pre));
            }
            i = i + 1;
        }
        proof {
            assert(self.guild_folders@.subrange(0, self.guild_folders@.len() as int)
                =~= self.guild_folders@);
        }
        out
    }
}

/// A guild the account belongs to.
#[derive(Debug, Clone)]
pub struct Guild {
    pub id: U64ReprStr,
    pub name: String,
    pub icon: Option<String>,
    pub owner: bool,
}

/// A user account as seen in channel metadata.
#[derive(Debug, Clone)]
pub struct User {
    pub id: U64ReprStr,
    pub username: String,
    pub discriminator: String,
    pub avatar: Option<String>,
}

/// A direct-message channel.
#[derive(Debug, Clone)]
pub struct DMChannel {
    pub kind: i32,
    pub id: U64ReprStr,
    pub last_message_id: Option<U64ReprStr>,
    pub recipients: Vec<User>,
}

/// A guild text channel.
#[derive(Debug, Clone)]
pub struct TextChannel {
    pub kind: i32,
    pub id: U64ReprStr,
    pub guild_id: U64ReprStr,
    pub name: String,
    pub parent_id: Option<U64ReprStr>,
    pub last_message_id: Option<U64ReprStr>,
    pub topic: Option<String>,
}

/// Either kind of conversation the engine can archive.
#[derive(Debug, Clone)]
pub enum Channel {
    DMChannel(DMChannel),
    TextChannel(TextChannel),
}

/// The names of the recipients joined by a comma and a space.
pub open spec fn spec_join_names(rs: Seq<User>) -> Seq<char>
    decreases rs.len(),
{
    if rs.len() == 0 {
        Seq::empty()
    } else if rs.len() == 1 {
        rs[0].username@
    } else {
        spec_join_names(rs.drop_last()) + ", "@ + rs.last().username@
    }
}

/// What `Channel::display` shows: the channel name after a hash mark, or the
/// recipient names inside a DM marker.
pub open spec fn spec_display(c: Channel) -> Seq<char> {
    match c {
        Channel::DMChannel(dm) => "#DM("@ + spec_join_names(dm.recipients@) + ")"@,
        Channel::TextChannel(t) => "#"@ + t.name@,
    }
}

impl Channel {
    /// The channel's own identifier.
    pub fn id(&self) -> (r: u64)
        ensures
            r == self.spec_id(),
    {
        match self {
            Channel::DMChannel(dmchannel) => dmchannel.id.0,
            Channel::TextChannel(text_channel) => text_channel.id.0,
        }
    }

    /// The channel's own identifier.
    pub open spec fn spec_id(&self) -> u64 {
        match self {
            Channel::DMChannel(dmchannel) => dmchannel.id.0,
            Channel::TextChannel(text_channel) => text_channel.id.0,
        }
    }

    /// Whether the channel carries ordinary text messages: every DM does; a
    /// guild channel only when its kind field is zero.
    pub fn is_text(&self) -> (r: bool)
        ensures
            r == self.spec_is_text(),
    {
        match self {
            Channel::DMChannel(_) => true,
            Channel::TextChannel(c) => c.kind == 0,
        }
    }

    /// Whether the channel carries ordinary text messages.
    pub open spec fn spec_is_text(&self) -> bool {
        match self {
            Channel::DMChannel(_) => true,
            Channel::TextChannel(c) => c.kind == 0,
        }
    }

    /// The remote service's last-message hint, if it sent one.
    pub fn last_message_id(&self) -> (r: Option<u64>)
        ensures
            r == self.spec_last_message_id(),
    {
        match self {
            Channel::DMChannel(dmchannel) => match &dmchannel.last_message_id {
                Some(id) => Some(id.0),
                None => None,
            },
            Channel::TextChannel(text_channel) => match &text_channel.last_message_id {
                Some(id) => Some(id.0),
                None => None,
            },
        }
    }

    /// The remote service's last-message hint, if it sent one.
    pub open spec fn spec_last_message_id(&self) -> Option<u64> {
        match self {
            Channel::DMChannel(dmchannel) => match dmchannel.last_message_id {
                Some(id) => Some(id.0),
                None => None,
            },
            Channel::TextChannel(text_channel) => match text_channel.last_message_id {
                Some(id) => Some(id.0),
                None => None,
            },
        }
    }

    /// A short human-readable label for the channel.
    pub fn display(&self) -> (r: String)
        ensures
            r@ == spec_display(*self),
    {
        match self {
            Channel::DMChannel(dmchannel) => {
                let mut out: Vec<char> = Vec::new();
                let marker = string_to_chars("#DM(");
                extend_chars(&mut out, &marker);
                let mut i: usize = 0;
                while i < dmchannel.recipients.len()
                    invariant
                        0 <= i <= dmchannel.recipients@.len(),
                        out@ =~= "#DM("@ + spec_join_names(
                            dmchannel.recipients@.subrange(0, i as int),
                        ),
                    decreases dmchannel.recipients@.len() - i,
                {
                    if i > 0 {
                        let sep = string_to_chars(", ");
                        extend_chars(&mut out, &sep);
                    }
                    let name = string_to_chars(dmchannel.recipients[i].username.as_str());
                    extend_chars(&mut out, &name);
                    proof {
                        let pre = dmchannel.recipients@.subrange(0, (i + 1) as int);
                        assert(pre.drop_last() =~= dmchannel.recipients@.subrange(0, i as int));
                        assert(pre.last() == dmchannel.recipients@[i as int]);
                        if i == 0 {
                            assert(spec_join_names(pre) =~= pre[0].username@);
                        }
                        assert(out@ =~= "#DM("@ + spec_join_names(pre));
                    }
                    i = i + 1;
                }
                let close = string_to_chars(")");
                extend_chars(&mut out, &close);
                proof {
                    assert(dmchannel.recipients@.subrange(0, dmchannel.recipients@.len() as int)
                        =~= dmchannel.recipients@);
                }
                chars_to_string(&out)
            },
            Channel::TextChannel(text_channel) => {
                let mut out: Vec<char> = Vec::new();
                let hash = string_to_chars("#");
                extend_chars(&mut out, &hash);
                let name = string_to_chars(text_channel.name.as_str());
                extend_chars(&mut out, &name);
                chars_to_string(&out)
            },
        }
    }
}

/// A message, fetched from the remote feed or synthesized from a historical
/// log (then carrying the sentinel identifier zero).
#[derive(Debug, Clone)]
pub struct Message {
    pub id: U64ReprStr,
    pub kind: u32,
    pub timestamp: Option<Ts>,
    pub content: Option<String>,
    pub author: Author,
    pub attachments: Vec<Attachment>,
    pub edited_timestamp: Option<String>,
    pub embeds: Vec<Embed>,
    pub pinned: Option<bool>,
}

/// The author of a message.
#[derive(Debug, Clone)]
pub struct Author {
    pub username: String,
    pub avatar: Option<String>,
    pub id: String,
    pub global_name: Option<String>,
}

/// A file attached to a message.
#[derive(Debug, Clone)]
pub struct Attachment {
    pub id: String,
    pub filename: String,
    pub url: String,
    pub height: Option<usize>,
    pub width: Option<usize>,
    pub content_type: Option<String>,
    pub original_content_type: Option<String>,
    pub size: Option<u64>,
    pub proxy_url: Option<String>,
}

/// A rich embed carried by a message; copied through storage unchanged.
#[derive(Debug, Clone)]
pub struct Embed {
    pub kind: Option<String>,
    pub author: Option<EmbedAuthor>,
    pub thumbnail: Option<EmbedThumbnail>,
    pub title: Option<String>,
    pub url: Option<String>,
    pub description: Option<String>,
    pub fields: Option<Vec<EmbedField>>,
    pub footer: Option<EmbedFooter>,
    pub timestamp: Option<String>,
    pub color: Option<u32>,
}

/// One field of an embed.
#[derive(Debug, Clone)]
pub struct EmbedField {
    pub name: String,
    pub value: String,
    pub inline: bool,
}

/// The author block of an embed.
#[derive(Debug, Clone)]
pub struct EmbedAuthor {
    pub name: Option<String>,
    pub url: Option<String>,
}

/// The thumbnail block of an embed.
#[derive(Debug, Clone)]
pub struct EmbedThumbnail {
    pub url: String,
    pub content_type: Option<String>,
    pub proxy_url: Option<String>,
    pub width: Option<usize>,
    pub height: Option<usize>,
}

/// The footer block of an embed.
#[derive(Debug, Clone)]
pub struct EmbedFooter {
    pub text: Option<String>,
    pub icon_url: Option<String>,
}

/// The top-level command: which operation to run.
#[derive(Debug)]
pub enum DexporterOpts {
    Import(Import),
    Export(Export),
    Update(Update),
    Download(Download),
}

/// Options of the update operation.
#[derive(Debug)]
pub struct Update {
    pub token: String,
    pub channels: Vec<String>,
    pub guilds: Vec<String>,
    pub state: UpdateState,
}

/// Working state the update operation accumulates before syncing.
#[derive(Debug)]
pub struct UpdateState {
    pub channels: Vec<Channel>,
    pub guilds: Vec<Guild>,
}

impl Default for UpdateState {
    /// An empty working state.
    fn default() -> (r: Self)
        ensures
            r.channels@.len() == 0,
            r.guilds@.len() == 0,
    {
        UpdateState { channels: Vec::new(), guilds: Vec::new() }
    }
}

/// Options of the import operation.
#[derive(Debug)]
pub struct Import {
    pub file: String,
}

/// Options of the export operation.
#[derive(Debug)]
pub struct Export {
    pub headers: bool,
}

/// Options of the download operation.
#[derive(Debug)]
pub struct Download {
    pub token: String,
    pub channels: Vec<String>,
}


/// Position of the first occurrence of `x`, or the length when absent.
pub open spec fn first_index_of(ids: Seq<u64>, x: u64) -> int
    decreases ids.len(),
{
    if ids.len() == 0 {
        0
    } else if ids[0] == x {
        0
    } else {
        1 + first_index_of(ids.drop_first(), x)
    }
}

/// The sort key of a guild: its position in the settings order, with a
/// guild the settings do not mention keyed first, as position zero.
pub open spec fn guild_key(ids: Seq<u64>, g: Guild) -> int {
    let i = first_index_of(ids, g.id.0);
    if i == ids.len() {
        0
    } else {
        i
    }
}

/// Stable insertion of one guild into an ordered prefix: it moves left past
/// strictly greater keys and no further.
pub open spec fn spec_stable_insert(s: Seq<Guild>, g: Guild, ids: Seq<u64>) -> Seq<Guild>
    decreases s.len(),
{
    if s.len() == 0 {
        seq![g]
    } else if guild_key(ids, s.last()) > guild_key(ids, g) {
        spec_stable_insert(s.drop_last(), g, ids) + seq![s.last()]
    } else {
        s.push(g)
    }
}

/// Stable sort of the guilds by their settings position: equal keys keep
/// their incoming order.
pub open spec fn spec_order_guilds(s: Seq<Guild>, ids: Seq<u64>) -> Seq<Guild>
    decreases s.len(),
{
    if s.len() == 0 {
        Seq::empty()
    } else {
        spec_stable_insert(spec_order_guilds(s.drop_last(), ids), s.last(), ids)
    }
}

/// A positional insert at the stable boundary equals the recursive insert.
proof fn lemma_stable_insert_at(s: Seq<Guild>, g: Guild, ids: Seq<u64>, p: int)
    requires
        0 <= p <= s.len(),
        forall|j: int| p <= j < s.len() ==> guild_key(ids, #[trigger] s[j]) > guild_key(ids, g),
        p > 0 ==> !(guild_key(ids, s[p - 1]) > guild_key(ids, g)),
    ensures
        spec_stable_insert(s, g, ids) == s.insert(p, g),
    decreases s.len(),
{
    if s.len() == 0 {
        assert(spec_stable_insert(s, g, ids) =~= s.insert(0, g));
    } else if p == s.len() {
        assert(!(guild_key(ids, s.last()) > guild_key(ids, g)));
        assert(s.push(g) =~= s.insert(p, g));
    } else {
        assert(guild_key(ids, s[s.len() - 1]) > guild_key(ids, g));
        lemma_stable_insert_at(s.drop_last(), g, ids, p);
        assert(spec_stable_insert(s.drop_last(), g, ids) + seq![s.last()] =~= s.insert(p, g));
    }
}

/// First index of `x` among the identifiers.
fn find_first_index(ids: &Vec<u64>, x: u64) -> (r: usize)
    ensures
        r == first_index_of(ids@, x),
        r <= ids@.len(),
{
    let mut i: usize = 0;
    proof {
        assert(ids@.subrange(0, ids@.len() as int) =~= ids@);
    }
    while i < ids.len()
        invariant
            0 <= i <= ids@.len(),
            first_index_of(ids@, x) == i + first_index_of(
                ids@.subrange(i as int, ids@.len() as int),
                x,
            ),
        decreases ids@.len() - i,
    {
        proof {
            let cur = ids@.subrange(i as int, ids@.len() as int);
            assert(cur[0] == ids@[i as int]);
            assert(cur.drop_first() =~= ids@.subrange(i + 1, ids@.len() as int));
        }
        if ids[i] == x {
            return i;
        }
        i = i + 1;
    }
    proof {
        assert(ids@.subrange(ids@.len() as int, ids@.len() as int) =~= Seq::<u64>::empty());
    }
    i
}

/// The sort key of a guild under the settings order.
fn guild_key_exec(ids: &Vec<u64>, g: &Guild) -> (r: usize)
    ensures
        r == guild_key(ids@, *g),
{
    let i: usize = find_first_index(ids, g.id.0);
    if i == ids.len() {
        0
    } else {
        i
    }
}

/// Orders the guilds by their position in the account settings, keeping the
/// incoming order of guilds that share a position: a stable sort, as the
/// listing endpoint presents them.
pub fn order_guilds(guilds: Vec<Guild>, settings: &Settings) -> (r: Vec<Guild>)
    ensures
        r@ == spec_order_guilds(guilds@, spec_guild_ids(settings.guild_folders@)),
{
    let ids: Vec<u64> = settings.guild_ids();
    let ghost idv = spec_guild_ids(settings.guild_folders@);
    let mut rest: Vec<Guild> = guilds;
    let ghost orig = rest@;
    let total: usize = rest.len();
    let mut out: Vec<Guild> = Vec::new();
    let mut done: usize = 0;
    proof {
        assert(orig.subrange(0, 0) =~= Seq::<Guild>::empty());
        assert(spec_order_guilds(orig.subrange(0, 0), idv) =~= Seq::<Guild>::empty());
    }
    while rest.len() > 0
        invariant
            ids@ == idv,
            orig.len() == total,
            done + rest@.len() == orig.len(),
            rest@ =~= orig.subrange(done as int, orig.len() as int),
            out@ == spec_order_guilds(orig.subrange(0, done as int), idv),
            out@.len() == done,
        decreases rest@.len(),
    {
        let g: Guild = rest.remove(0);
        proof {
            assert(g == orig[done as int]);
            assert(rest@ =~= orig.subrange(done + 1, orig.len() as int));
        }
        let gk: usize = guild_key_exec(&ids, &g);
        let mut p: usize = out.len();
        while p > 0 && guild_key_exec(&ids, &out[p - 1]) > gk
            invariant
                ids@ == idv,
                0 <= p <= out@.len(),
                gk == guild_key(idv, g),
                forall|j: int|
                    p <= j < out@.len() ==> guild_key(idv, #[trigger] out@[j]) > guild_key(idv, g),
            decreases p,
        {
            p = p - 1;
        }
        proof {
            lemma_stable_insert_at(out@, g, idv, p as int);
            let pre = orig.subrange(0, (done + 1) as int);
            assert(pre.drop_last() =~= orig.subrange(0, done as int));
            assert(pre.last() == orig[done as int]);
        }
        out.insert(p, g);
        done = done + 1;
    }
    proof {
        assert(orig.subrange(0, orig.len() as int) =~= orig);
    }
    out
}

} // verus!
