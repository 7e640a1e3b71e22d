//! The syndication feed of the blog.

use vstd::prelude::*;
use crate::blog::BlogEntry;
use crate::config::Config;
use crate::date::{format_rfc2822, rfc2822_utc, unix_midnight};
use crate::link::blog_url;
use crate::text::{copy_option, copy_texts, option_view, texts};

verus! {

/// The channel record of `rss`: the head of a feed and the list of its items.
/// What a plain channel holds is told by `channel_head` and `channel_items`.
#[verifier::external_type_specification]
#[verifier::external_body]
pub struct ExChannel(rss::Channel);

/// One item of the feed: one blog entry.
#[derive(Debug, PartialEq, Eq)]
pub struct FeedItem {
    pub title: String,
    pub link: String,
    /// The description, rendered as HTML, where the entry has one.
    pub description: Option<String>,
    pub author: String,
    pub categories: Vec<String>,
    /// The permanent identifier of the item.
    pub guid: String,
    /// Whether the identifier is a URL that leads to the item.
    pub guid_is_permalink: bool,
    /// The publish date, as RFC 2822 text.
    pub pub_date: String,
    /// The body of the entry, rendered as HTML.
    pub content: String,
}

/// The link by which the feed names its own address.
#[derive(Debug, PartialEq, Eq)]
pub struct SelfLink {
    pub href: String,
    pub rel: String,
    pub mime_type: String,
}

/// The feed of the blog.
#[derive(Debug, PartialEq, Eq)]
pub struct Feed {
    pub title: String,
    pub link: String,
    pub description: String,
    /// When the blog was last updated, as RFC 2822 text.
    pub pub_date: String,
    pub last_build_date: String,
    pub items: Vec<FeedItem>,
    pub self_link: SelfLink,
}

/// What a `FeedItem` holds, as characters.
pub struct FeedItemContent {
    pub title: Seq<char>,
    pub link: Seq<char>,
    pub description: Option<Seq<char>>,
    pub author: Seq<char>,
    pub categories: Seq<Seq<char>>,
    pub guid: Seq<char>,
    pub guid_is_permalink: bool,
    pub pub_date: Seq<char>,
    pub content: Seq<char>,
}

impl View for FeedItem {
    type V = FeedItemContent;

    open spec fn view(&self) -> FeedItemContent {
        FeedItemContent {
            title: self.title@,
            link: self.link@,
            description: option_view(self.description),
            author: self.author@,
            categories: texts(self.categories@),
            guid: self.guid@,
            guid_is_permalink: self.guid_is_permalink,
            pub_date: self.pub_date@,
            content: self.content@,
        }
    }
}

/// What a `Feed` holds, as characters.
pub struct FeedContent {
    pub title: Seq<char>,
    pub link: Seq<char>,
    pub description: Seq<char>,
    pub pub_date: Seq<char>,
    pub last_build_date: Seq<char>,
    pub items: Seq<FeedItemContent>,
    pub self_href: Seq<char>,
    pub self_rel: Seq<char>,
    pub self_mime_type: Seq<char>,
}

impl View for Feed {
    type V = FeedContent;

    open spec fn view(&self) -> FeedContent {
        FeedContent {
            title: self.title@,
            link: self.link@,
            description: self.description@,
            pub_date: self.pub_date@,
            last_build_date: self.last_build_date@,
            items: self.items@.map_values(|item: FeedItem| item@),
            self_href: self.self_link.href@,
            self_rel: self.self_link.rel@,
            self_mime_type: self.self_link.mime_type@,
        }
    }
}

/// The feed item of `entry` on the site of `config`: its title as Markdown,
/// its address on the site as link and as permanent identifier, its rendered
/// description, the author with the e-mail address first, its tags as
/// categories, the first second of its publish date in UTC, and its rendered
/// body.
pub open spec fn item_of(entry: BlogEntry, config: Config) -> FeedItemContent {
    FeedItemContent {
        title: entry.markdown.meta.title@,
        link: config.site_url@ + blog_url(entry.slug@),
        description: option_view(entry.markdown.meta.description_html),
        author: config.author_email@ + " ("@ + config.author@ + ")"@,
        categories: entry.tags(),
        guid: config.site_url@ + blog_url(entry.slug@),
        guid_is_permalink: true,
        pub_date: rfc2822_utc(
            unix_midnight(entry.time.year as int, entry.time.month as int, entry.time.day as int),
        ),
        content: entry.markdown.html@,
    }
}

/// When the blog was last updated, in seconds from 1970-01-01T00:00:00Z: the
/// latest of the newest commits of the entries. `None` when no entry has any
/// history.
pub open spec fn last_updated(entries: Seq<BlogEntry>) -> Option<int>
    decreases entries.len(),
{
    if entries.len() == 0 {
        None
    } else {
        let before = last_updated(entries.drop_last());
        let commits = entries.last().commits@;
        if commits.len() == 0 {
            before
        } else {
            match before {
                Some(latest) if latest >= commits[0].time.seconds => before,
                _ => Some(commits[0].time.seconds as int),
            }
        }
    }
}

/// The feed of the blog with the entries `entries`, in their order, on the
/// site of `config`; `None` when no entry has any history.
pub open spec fn feed_of(entries: Seq<BlogEntry>, config: Config) -> Option<FeedContent> {
    match last_updated(entries) {
        None => None,
        Some(seconds) => Some(
            FeedContent {
                title: config.site_name@,
                link: config.site_url@,
                description: config.site_name@,
                pub_date: rfc2822_utc(seconds),
                last_build_date: rfc2822_utc(seconds),
                items: Seq::new(entries.len(), |i: int| item_of(entries[i], config)),
                self_href: config.site_url@ + "/blog/rss.xml"@,
                self_rel: "self"@,
                self_mime_type: "application/rss+xml"@,
            },
        ),
    }
}

/// The blog was last updated when the newest commit of some entry was made,
/// and no entry has a newer one. It was never updated exactly when no entry
/// has any history.
pub proof fn lemma_last_updated_is_latest(entries: Seq<BlogEntry>)
    ensures
        last_updated(entries) is None <==> forall|i: int|
            0 <= i < entries.len() ==> (#[trigger] entries[i]).commits@.len() == 0,
        last_updated(entries) matches Some(latest) ==> {
            &&& forall|i: int|
                0 <= i < entries.len() && (#[trigger] entries[i]).commits@.len() > 0
                    ==> entries[i].commits@[0].time.seconds <= latest
            &&& exists|i: int|
                0 <= i < entries.len() && (#[trigger] entries[i]).commits@.len() > 0
                    && entries[i].commits@[0].time.seconds == latest
        },
    decreases entries.len(),
{
    if entries.len() > 0 {
        let shorter = entries.drop_last();
        lemma_last_updated_is_latest(shorter);
        let last = entries.len() - 1;
        assert forall|i: int| 0 <= i < shorter.len() implies shorter[i] == entries[i] by {}
        if last_updated(entries) is None {
            assert forall|i: int| 0 <= i < entries.len() implies (#[trigger] entries[i]).commits@.len()
                == 0 by {
                if i < last {
                    assert(shorter[i].commits@.len() == 0);
                }
            }
        } else {
            let latest = last_updated(entries).unwrap();
            assert forall|i: int|
                0 <= i < entries.len() && (#[trigger] entries[i]).commits@.len()
                    > 0 implies entries[i].commits@[0].time.seconds <= latest by {
                if i < last {
                    assert(shorter[i].commits@.len() > 0);
                }
            }
            if last_updated(shorter) == Some(latest) {
                let i = choose|i: int|
                    0 <= i < shorter.len() && (#[trigger] shorter[i]).commits@.len() > 0
                        && shorter[i].commits@[0].time.seconds == latest;
                assert(entries[i].commits@.len() > 0);
            } else {
                assert(entries[last].commits@.len() > 0);
            }
            if forall|i: int| 0 <= i < entries.len() ==> (#[trigger] entries[i]).commits@.len() == 0 {
                assert(entries[last].commits@.len() == 0);
                assert forall|i: int| 0 <= i < shorter.len() implies (#[trigger] shorter[i]).commits@.len()
                    == 0 by {
                    assert(entries[i].commits@.len() == 0);
                }
            }
        }
    }
}

/// Makes the feed item of `blog_entry`.
pub fn to_rss_item(blog_entry: &BlogEntry, config: &Config) -> (item: FeedItem)
    requires
        blog_entry.wf(),
    ensures
        item@ == item_of(*blog_entry, *config),
{
    proof {
        reveal_strlit("/blog/");
        assert("/blog/"@ =~= seq!['/', 'b', 'l', 'o', 'g', '/']);
    }
    let mut link = config.site_url.clone();
    link.append("/blog/");
    link.append(blog_entry.slug.as_str());
    let mut author = config.author_email.clone();
    author.append(" (");
    author.append(config.author.as_str());
    author.append(")");
    proof {
        assert(link@ =~= config.site_url@ + blog_url(blog_entry.slug@));
    }
    FeedItem {
        title: blog_entry.markdown.meta.title.clone(),
        guid: link.clone(),
        link,
        description: copy_option(&blog_entry.markdown.meta.description_html),
        author,
        categories: copy_texts(&blog_entry.markdown.meta.tags),
        guid_is_permalink: true,
        pub_date: blog_entry.time.rfc2822(),
        content: blog_entry.markdown.html.clone(),
    }
}

/// Finds when the blog was last updated.
pub fn last_update_time(all_blog: &Vec<BlogEntry>) -> (latest: Option<i64>)
    ensures
        match last_updated(all_blog@) {
            Some(seconds) => latest == Some(seconds as i64) && seconds == seconds as i64,
            None => latest is None,
        },
        latest is None <==> forall|i: int|
            0 <= i < all_blog@.len() ==> (#[trigger] all_blog@[i]).commits@.len() == 0,
{
    let mut latest: Option<i64> = None;
    let mut i: usize = 0;
    proof {
        assert(all_blog@.take(0).len() == 0);
    }
    while i < all_blog.len()
        invariant
            i <= all_blog.len(),
            match last_updated(all_blog@.take(i as int)) {
                Some(seconds) => latest == Some(seconds as i64) && seconds == seconds as i64,
                None => latest is None,
            },
        decreases all_blog.len() - i,
    {
        proof {
            assert(all_blog@.take(i + 1).drop_last() == all_blog@.take(i as int));
            assert(all_blog@.take(i + 1).last() == all_blog@[i as int]);
        }
        let commits = &all_blog[i].commits;
        if commits.len() > 0 {
            let seconds = commits[0].time.seconds;
            latest = match latest {
                Some(known) if known >= seconds => Some(known),
                _ => Some(seconds),
            };
        }
        i += 1;
    }
    proof {
        assert(all_blog@.take(i as int) == all_blog@);
        lemma_last_updated_is_latest(all_blog@);
    }
    latest
}

/// Builds the feed of the blog from its entries, in their order.
///
/// The feed has one item for each entry. Its publish date and its last build
/// date are both the time of the latest commit to any entry. When no entry has
/// any history there is no such time, and no feed is built.
pub fn build_rss(all_blog: &Vec<BlogEntry>, config: &Config) -> (feed: Option<Feed>)
    requires
        forall|i: int| 0 <= i < all_blog@.len() ==> (#[trigger] all_blog@[i]).wf(),
    ensures
        match feed_of(all_blog@, *config) {
            Some(content) => feed matches Some(f) && f@ == content,
            None => feed is None,
        },
        feed is None <==> forall|i: int|
            0 <= i < all_blog@.len() ==> (#[trigger] all_blog@[i]).commits@.len() == 0,
{
    let seconds = match last_update_time(all_blog) {
        Some(seconds) => seconds,
        None => {
            return None;
        },
    };
    proof {
        lemma_last_updated_is_latest(all_blog@);
        let i = choose|i: int|
            0 <= i < all_blog@.len() && (#[trigger] all_blog@[i]).commits@.len() > 0
                && all_blog@[i].commits@[0].time.seconds == seconds;
        assert(all_blog@[i].wf());
        assert(all_blog@[i].commits@[0].time.wf());
    }
    let updated = format_rfc2822(seconds).unwrap();
    let mut items: Vec<FeedItem> = Vec::new();
    let mut i: usize = 0;
    while i < all_blog.len()
        invariant
            i <= all_blog.len(),
            forall|k: int| 0 <= k < all_blog@.len() ==> (#[trigger] all_blog@[k]).wf(),
            items@.len() == i,
            forall|k: int| 0 <= k < i ==> (#[trigger] items@[k])@ == item_of(all_blog@[k], *config),
        decreases all_blog.len() - i,
    {
        items.push(to_rss_item(&all_blog[i], config));
        i += 1;
    }
    let mut href = config.site_url.clone();
    href.append("/blog/rss.xml");
    let feed = Feed {
        title: config.site_name.clone(),
        link: config.site_url.clone(),
        description: config.site_name.clone(),
        pub_date: updated.clone(),
        last_build_date: updated,
        items,
        self_link: SelfLink {
            href,
            rel: String::from_str("self"),
            mime_type: String::from_str("application/rss+xml"),
        },
    };
    proof {
        assert(feed@.items =~= feed_of(all_blog@, *config).unwrap().items);
    }
    Some(feed)
}

/// What a feed says of itself, apart from its items.
pub struct ChannelHead {
    pub title: Seq<char>,
    pub link: Seq<char>,
    pub description: Seq<char>,
    pub pub_date: Seq<char>,
    pub last_build_date: Seq<char>,
    pub self_href: Seq<char>,
    pub self_rel: Seq<char>,
    pub self_mime_type: Seq<char>,
}

/// The head of a feed.
pub open spec fn head_of(feed: FeedContent) -> ChannelHead {
    ChannelHead {
        title: feed.title,
        link: feed.link,
        description: feed.description,
        pub_date: feed.pub_date,
        last_build_date: feed.last_build_date,
        self_href: feed.self_href,
        self_rel: feed.self_rel,
        self_mime_type: feed.self_mime_type,
    }
}

/// The items that a channel holds, in their order.
pub uninterp spec fn channel_items(channel: rss::Channel) -> Seq<FeedItemContent>;

/// The head that a channel was made with.
pub uninterp spec fn channel_head(channel: rss::Channel) -> ChannelHead;

/// Whether a channel holds nothing but its head and items of the nine fields
/// that the feed fills: every other field, of the channel and of each item,
/// has the default of `rss`.
pub uninterp spec fn channel_is_plain(channel: rss::Channel) -> bool;

/// The RSS document that `rss` writes for a plain channel with the head
/// `head` and the items `items`.
pub uninterp spec fn rss_text(head: ChannelHead, items: Seq<FeedItemContent>) -> Seq<char>;

/// Makes an `rss::Channel` without items: the fields of its head, and the one
/// link of its Atom extension, are those of the feed, one for one; every other
/// field keeps the default of `rss`.
#[verifier::external_body]
fn new_channel(feed: &Feed) -> (channel: rss::Channel)
    ensures
        channel_is_plain(channel),
        channel_head(channel) == head_of(feed@),
        channel_items(channel) == Seq::<FeedItemContent>::empty(),
{
    let mut link = rss::extension::atom::Link::default();
    link.set_href(feed.self_link.href.clone());
    link.set_rel(feed.self_link.rel.clone());
    link.set_mime_type(Some(feed.self_link.mime_type.clone()));
    let atom_ext = Some(rss::extension::atom::AtomExtension { links: vec![link] });
    let (title, description) = (feed.title.clone(), feed.description.clone());
    let pub_date = Some(feed.pub_date.clone());
    let last_build_date = Some(feed.last_build_date.clone());
    let link = feed.link.clone();
    rss::Channel {
        title, link, description, pub_date, last_build_date, atom_ext, ..Default::default()
    }
}

/// Pushes onto the items of an `rss::Channel` an `rss::Item` with the fields
/// of a feed item, one for one; every other field of the item keeps the
/// default of `rss`. The head of the channel stays as it is, and a plain
/// channel stays plain.
#[verifier::external_body]
fn push_item(channel: &mut rss::Channel, item: &FeedItem)
    ensures
        channel_items(*final(channel)) == channel_items(*old(channel)).push(item@),
        channel_head(*final(channel)) == channel_head(*old(channel)),
        channel_is_plain(*final(channel)) == channel_is_plain(*old(channel)),
{
    channel.items.push(rss::Item {
        title: Some(item.title.clone()),
        link: Some(item.link.clone()),
        description: item.description.clone(),
        author: Some(item.author.clone()),
        categories: item.categories.iter().map(
            |name| rss::Category { name: name.clone(), domain: None },
        ).collect(),
        guid: Some(rss::Guid { value: item.guid.clone(), permalink: item.guid_is_permalink }),
        pub_date: Some(item.pub_date.clone()),
        content: Some(item.content.clone()),
        ..Default::default()
    });
}

/// `to_string` of `rss::Channel`, which writes the channel as an RSS document.
/// The text depends on what the channel holds alone, which for a plain
/// channel is its head and its items.
#[verifier::external_body]
fn channel_text(channel: &rss::Channel) -> (xml: String)
    requires
        channel_is_plain(*channel),
    ensures
        xml@ == rss_text(channel_head(*channel), channel_items(*channel)),
{
    channel.to_string()
}

impl Feed {
    /// Writes the feed as an RSS document: the document that `rss` writes for
    /// a channel with the head of the feed and with its items, in their order.
    pub fn to_xml(&self) -> (xml: String)
        ensures
            xml@ == rss_text(head_of(self@), self@.items),
    {
        let mut channel = new_channel(self);
        let mut i: usize = 0;
        proof {
            assert(self@.items.take(0) =~= Seq::<FeedItemContent>::empty());
        }
        while i < self.items.len()
            invariant
                i <= self.items.len(),
                channel_is_plain(channel),
                channel_head(channel) == head_of(self@),
                channel_items(channel) == self@.items.take(i as int),
            decreases self.items.len() - i,
        {
            proof {
                assert(self@.items.take(i as int).push(self.items@[i as int]@) =~= self@.items.take(
                    i + 1,
                ));
            }
            push_item(&mut channel, &self.items[i]);
            i += 1;
        }
        proof {
            assert(self@.items.take(i as int) =~= self@.items);
        }
        channel_text(&channel)
    }
}

} // verus!
