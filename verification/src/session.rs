//! The session state behind the UI: current locale, fetch-in-flight flag,
//! the two locale item lists, the transient message, and the bounded
//! channel that carries worker results back to the UI thread.

use crate::NewsItem;
use vstd::prelude::*;

verus! {

/// How long a transient message stays on screen, in seconds.
pub const MESSAGE_DISPLAY_SECS: i64 = 5;

/// The severity of a transient message.
#[derive(Clone, Copy, Debug, PartialEq, Eq, Structural)]
pub enum MsgType {
    Info,
    Warn,
    Success,
    Danger,
}

impl Default for MsgType {
    /// A plain informational message.
    fn default() -> (r: Self)
        ensures
            r == MsgType::Info,
    {
        MsgType::Info
    }
}

/// Which screen the UI shows.
#[derive(Clone, Copy, Debug, PartialEq, Eq, Structural)]
pub enum CurrentPanel {
    News,
    About,
}

impl Default for CurrentPanel {
    /// The news list is the opening screen.
    fn default() -> (r: Self)
        ensures
            r == CurrentPanel::News,
    {
        CurrentPanel::News
    }
}

/// The "about" screen holds no state of its own.
#[derive(Clone, Copy, Debug, PartialEq, Eq, Structural, Default)]
pub struct About;

/// A transient on-screen message and the moment it was shown.
#[derive(Clone, Debug)]
pub struct MsgSpec {
    pub msg: String,
    pub msg_type: MsgType,
    pub timestamp: i64,
}

impl Default for MsgSpec {
    /// No message: empty text, informational, shown at the epoch.
    fn default() -> (r: Self)
        ensures
            r.msg@.len() == 0,
            r.msg_type == MsgType::Info,
            r.timestamp == 0,
    {
        MsgSpec { msg: String::new(), msg_type: MsgType::Info, timestamp: 0 }
    }
}

/// One worker result, consumed exactly once by the poller: an error
/// description, or a (locale, items) pair where `true` addresses the
/// Chinese list.
#[derive(Debug)]
pub enum ChannelItem {
    ErrMsg(String),
    NewsItems((bool, Vec<NewsItem>)),
}

/// The bounded FIFO queue from worker threads to the UI thread. Sending
/// never blocks: a message offered to a full queue is dropped, which is
/// sound because every message is a full replacement snapshot.
#[derive(Debug)]
pub struct UpdateChannel {
    queue: Vec<ChannelItem>,
    cap: usize,
}

impl UpdateChannel {
    /// The messages now queued, oldest first.
    pub closed spec fn messages(&self) -> Seq<ChannelItem> {
        self.queue@
    }

    /// The queue's fixed capacity.
    pub closed spec fn capacity(&self) -> usize {
        self.cap
    }

    /// An empty queue of the given capacity.
    pub fn new(cap: usize) -> (c: Self)
        requires
            cap >= 1,
        ensures
            c.messages().len() == 0,
            c.capacity() == cap,
    {
        UpdateChannel { queue: Vec::new(), cap }
    }

    /// Offers a message without blocking: a queue below capacity appends
    /// it; a full queue drops it, leaves the queue unchanged, and reports
    /// so.
    pub fn try_send(&mut self, item: ChannelItem) -> (accepted: bool)
        ensures
            final(self).capacity() == old(self).capacity(),
            old(self).messages().len() < old(self).capacity() ==> accepted && final(self).messages() == old(self).messages().push(item),
            old(self).messages().len() >= old(self).capacity() ==> !accepted && final(self).messages() == old(self).messages(),
    {
        if self.queue.len() < self.cap {
            self.queue.push(item);
            true
        } else {
            false
        }
    }

    /// Takes the oldest message, if any, without blocking.
    pub fn try_recv(&mut self) -> (r: Option<ChannelItem>)
        ensures
            final(self).capacity() == old(self).capacity(),
            old(self).messages().len() == 0 ==> r is None && final(self).messages() == old(self).messages(),
            old(self).messages().len() > 0 ==> r == Some(old(self).messages()[0]) && final(self).messages() == old(self).messages().drop_first(),
    {
        if self.queue.len() == 0 {
            None
        } else {
            let item = self.queue.remove(0);
            proof {
                assert(old(self).queue@.remove(0) =~= old(self).queue@.drop_first());
            }
            Some(item)
        }
    }
}

/// The process-lifetime session state, owned and mutated by the UI thread
/// alone.
#[derive(Clone, Debug)]
pub struct App {
    pub is_cn: bool,
    pub is_fetching: bool,
    pub is_scroll_to_top: bool,
    pub news_items_cn: Vec<NewsItem>,
    pub news_items_en: Vec<NewsItem>,
    pub currency_panel: CurrentPanel,
    pub about_panel: About,
    pub msg_spec: MsgSpec,
}

impl Default for App {
    /// The startup state: Chinese locale, nothing fetched, empty lists,
    /// the news panel showing, no message.
    fn default() -> (r: Self)
        ensures
            r.is_cn == true,
            r.is_fetching == false,
            r.is_scroll_to_top == false,
            r.news_items_cn@.len() == 0,
            r.news_items_en@.len() == 0,
            r.currency_panel == CurrentPanel::News,
            r.msg_spec.msg@.len() == 0,
            r.msg_spec.msg_type == MsgType::Info,
            r.msg_spec.timestamp == 0,
    {
        App {
            is_cn: true,
            is_fetching: false,
            is_scroll_to_top: false,
            news_items_cn: Vec::new(),
            news_items_en: Vec::new(),
            currency_panel: CurrentPanel::News,
            about_panel: About,
            msg_spec: MsgSpec { msg: String::new(), msg_type: MsgType::Info, timestamp: 0 },
        }
    }
}

impl App {
    /// Dispatches a refresh through the in-flight gate: while a fetch is
    /// already in flight nothing changes and no worker may be spawned;
    /// otherwise the flag is raised and the caller spawns exactly one
    /// worker.
    pub fn fetch_data(&mut self) -> (spawn: bool)
        ensures
            old(self).is_fetching ==> !spawn && *final(self) == *old(self),
            !old(self).is_fetching ==> spawn && final(self).is_fetching == true,
            final(self).is_cn == old(self).is_cn,
            final(self).is_scroll_to_top == old(self).is_scroll_to_top,
            final(self).news_items_cn == old(self).news_items_cn,
            final(self).news_items_en == old(self).news_items_en,
            final(self).currency_panel == old(self).currency_panel,
            final(self).about_panel == old(self).about_panel,
            final(self).msg_spec == old(self).msg_spec,
    {
        if self.is_fetching {
            return false;
        }
        self.is_fetching = true;
        true
    }

    /// Flips the locale. The fetch state is untouched, except that an
    /// empty target list triggers a refresh through the same gate as an
    /// explicit refresh.
    pub fn toggle_language(&mut self) -> (spawn: bool)
        ensures
            final(self).is_cn == !old(self).is_cn,
            spawn == (!old(self).is_fetching && (if !old(self).is_cn {
                old(self).news_items_cn@.len() == 0
            } else {
                old(self).news_items_en@.len() == 0
            })),
            final(self).is_fetching == (old(self).is_fetching || spawn),
            final(self).is_scroll_to_top == old(self).is_scroll_to_top,
            final(self).news_items_cn == old(self).news_items_cn,
            final(self).news_items_en == old(self).news_items_en,
            final(self).currency_panel == old(self).currency_panel,
            final(self).about_panel == old(self).about_panel,
            final(self).msg_spec == old(self).msg_spec,
    {
        self.is_cn = !self.is_cn;
        let target_empty = if self.is_cn {
            self.news_items_cn.len() == 0
        } else {
            self.news_items_en.len() == 0
        };
        if target_empty {
            self.fetch_data()
        } else {
            false
        }
    }

    /// Records a transient message, shown from `now` on.
    pub fn show_message(&mut self, msg: String, msg_type: MsgType, now: i64)
        ensures
            final(self).msg_spec.msg == msg,
            final(self).msg_spec.msg_type == msg_type,
            final(self).msg_spec.timestamp == now,
            final(self).is_cn == old(self).is_cn,
            final(self).is_fetching == old(self).is_fetching,
            final(self).is_scroll_to_top == old(self).is_scroll_to_top,
            final(self).news_items_cn == old(self).news_items_cn,
            final(self).news_items_en == old(self).news_items_en,
            final(self).currency_panel == old(self).currency_panel,
            final(self).about_panel == old(self).about_panel,
    {
        self.msg_spec = MsgSpec { msg, msg_type, timestamp: now };
    }

    /// Whether the transient message is still within its display window.
    pub fn message_visible(&self, now: i64) -> (vis: bool)
        requires
            i64::MIN <= now - self.msg_spec.timestamp <= i64::MAX,
        ensures
            vis == (now - self.msg_spec.timestamp < MESSAGE_DISPLAY_SECS),
    {
        now - self.msg_spec.timestamp < MESSAGE_DISPLAY_SECS
    }

    /// Integrates at most one queued worker result. An empty queue changes
    /// nothing. Otherwise the oldest message is consumed and the fetching
    /// flag clears: an error becomes a warning shown from `now`; a
    /// nonempty item list replaces the addressed locale's list wholesale,
    /// while an empty list leaves the shown data untouched.
    pub fn update_data(&mut self, ch: &mut UpdateChannel, now: i64)
        ensures
            final(ch).capacity() == old(ch).capacity(),
            old(ch).messages().len() == 0 ==> *final(self) == *old(self) && final(ch).messages()
                == old(ch).messages(),
            old(ch).messages().len() > 0 ==> final(ch).messages() == old(ch).messages().drop_first() && final(self).is_fetching == false && final(self).is_cn
                == old(self).is_cn && final(self).is_scroll_to_top == old(self).is_scroll_to_top
                && final(self).currency_panel == old(self).currency_panel && final(self).about_panel == old(self).about_panel && match old(ch).messages()[0] {
                ChannelItem::ErrMsg(m) => final(self).msg_spec.msg == m && final(self).msg_spec.msg_type == MsgType::Warn && final(self).msg_spec.timestamp == now
                    && final(self).news_items_cn == old(self).news_items_cn && final(self).news_items_en == old(self).news_items_en,
                ChannelItem::NewsItems((for_cn, items)) => final(self).msg_spec == old(self).msg_spec && (items@.len() == 0 ==> final(self).news_items_cn == old(self).news_items_cn && final(self).news_items_en == old(self).news_items_en) && (
                items@.len() > 0 && for_cn ==> final(self).news_items_cn == items && final(self).news_items_en == old(self).news_items_en) && (items@.len() > 0 && !for_cn
                    ==> final(self).news_items_en == items && final(self).news_items_cn == old(self).news_items_cn),
            },
    {
        match ch.try_recv() {
            None => {},
            Some(item) => {
                match item {
                    ChannelItem::ErrMsg(m) => {
                        self.show_message(m, MsgType::Warn, now);
                    },
                    ChannelItem::NewsItems((for_cn, items)) => {
                        if items.len() > 0 {
                            if for_cn {
                                self.news_items_cn = items;
                            } else {
                                self.news_items_en = items;
                            }
                        }
                    },
                }
                self.is_fetching = false;
            },
        }
    }
}

} // verus!
