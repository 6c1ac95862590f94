//! Results that plugins push into the search.

use crate::codec;
use crate::json;
use crate::page;
use crate::session::ActiveSession;
use crate::table::Table;
use crate::text;
use vstd::prelude::*;

verus! {

/// The milliseconds that plugins have to answer.
pub const PUSH_TIMEOUT: u64 = 250;

/// The most results that one plugin gives for one query.
pub const MAX_ITEMS_PER_PLUGIN: usize = 8;

/// A result that a plugin gives.
#[derive(Debug)]
pub struct PushItem {
    pub title: String,
    pub subtitle: String,
    /// What the plugin gets when the result is chosen.
    pub payload: String,
    /// The feature that is called up.
    pub code: String,
    pub icon: Option<String>,
}

/// A result in the search.
#[derive(Debug)]
pub struct SearchItem {
    pub id: String,
    pub title: String,
    pub subtitle: String,
    pub kind: String,
    pub target: String,
    pub icon: Option<String>,
    pub action: String,
}

/// The view of [`SearchItem`].
#[verifier::ext_equal]
pub struct ItemView {
    pub id: Seq<char>,
    pub title: Seq<char>,
    pub subtitle: Seq<char>,
    pub kind: Seq<char>,
    pub target: Seq<char>,
    pub icon: Option<Seq<char>>,
    pub action: Seq<char>,
}

impl View for SearchItem {
    type V = ItemView;

    open spec fn view(&self) -> ItemView {
        ItemView {
            id: self.id@,
            title: self.title@,
            subtitle: self.subtitle@,
            kind: self.kind@,
            target: self.target@,
            icon: text::opt_view(self.icon),
            action: self.action@,
        }
    }
}

impl Clone for SearchItem {
    fn clone(&self) -> (r: Self)
        ensures
            r@ == self@,
    {
        let icon = match &self.icon {
            Some(i) => Some(i.clone()),
            None => None,
        };
        SearchItem {
            id: self.id.clone(),
            title: self.title.clone(),
            subtitle: self.subtitle.clone(),
            kind: self.kind.clone(),
            target: self.target.clone(),
            icon,
            action: self.action.clone(),
        }
    }
}

/// The view of a list of results.
pub open spec fn item_views(v: Seq<SearchItem>) -> Seq<ItemView> {
    Seq::new(v.len(), |i: int| v[i]@)
}

/// The result in the search that a plugin's result becomes. It says which plugin it is from,
/// and is always a plugin's, never a program or a file.
pub open spec fn search_item(it: PushItem, plugin_id: Seq<char>) -> ItemView {
    ItemView {
        id: "push::"@ + plugin_id + "::"@ + it.title@,
        title: it.title@,
        subtitle: if it.subtitle@.len() == 0 {
            plugin_id + " · 插件"@
        } else {
            it.subtitle@ + " · "@ + plugin_id
        },
        kind: "plugin"@,
        target: if it.payload@.len() == 0 {
            plugin_id + "#"@ + it.code@
        } else {
            plugin_id + "#"@ + it.code@ + "\u{1}"@ + it.payload@
        },
        icon: text::opt_view(it.icon),
        action: "plugin"@,
    }
}

impl PushItem {
    /// The result in the search, see [`search_item`].
    pub fn into_search_item(self, plugin_id: &str) -> (r: SearchItem)
        ensures
            r@ == search_item(self, plugin_id@),
    {
        let subtitle = if self.subtitle.as_str().is_empty() {
            text::owned(plugin_id).concat(" · 插件")
        } else {
            self.subtitle.concat(" · ").concat(plugin_id)
        };
        let base = text::owned(plugin_id).concat("#").concat(self.code.as_str());
        let target = if self.payload.as_str().is_empty() {
            base
        } else {
            base.concat("\u{1}").concat(self.payload.as_str())
        };
        SearchItem {
            id: text::owned("push::").concat(plugin_id).concat("::").concat(self.title.as_str()),
            title: self.title,
            subtitle,
            kind: text::owned("plugin"),
            target,
            icon: self.icon,
            action: text::owned("plugin"),
        }
    }
}

// ---------------------------------------------------------------------------
// Plugins that answer
// ---------------------------------------------------------------------------

/// The plugins that are ready to answer, in the order in which they came.
#[derive(Debug)]
pub struct Ready {
    pub ids: Vec<String>,
}

/// Why a plugin is not taken as one that answers.
pub open spec fn register_error(session: (Seq<char>, bool), declares: bool) -> Option<Seq<char>> {
    if session.1 {
        Some("调试会话暂不支持搜索结果注入"@)
    } else if !declares {
        Some(
            "插件 "@ + session.0
                + " 没有任何 feature 声明 mainPush，不能注册搜索结果注入"@,
        )
    } else {
        None
    }
}

/// The ids after one more is ready.
pub open spec fn with_id(v: Seq<Seq<char>>, id: Seq<char>) -> Seq<Seq<char>> {
    if v.contains(id) {
        v
    } else {
        v.push(id)
    }
}

/// The ids without one.
pub open spec fn without_id(v: Seq<Seq<char>>, id: Seq<char>) -> Seq<Seq<char>> {
    crate::commands::without(v, id)
}

impl Ready {
    pub fn new() -> (r: Self)
        ensures
            r.ids@ == Seq::<String>::empty(),
    {
        Ready { ids: Vec::new() }
    }

    /// Takes a plugin as one that answers, see [`register_error`].
    pub fn register(&mut self, session: &ActiveSession, declares: bool) -> (r: Result<(), String>)
        ensures
            text::message_of(r) == register_error(session@, declares),
            text::texts(final(self).ids@) == (if register_error(session@, declares) is Some {
                text::texts(old(self).ids@)
            } else {
                with_id(text::texts(old(self).ids@), session@.0)
            }),
    {
        if session.dev {
            return Err(text::owned("调试会话暂不支持搜索结果注入"));
        }
        if !declares {
            return Err(
                text::owned("插件 ").concat(session.id.as_str()).concat(
                    " 没有任何 feature 声明 mainPush，不能注册搜索结果注入",
                ),
            );
        }
        let mut i: usize = 0;
        let n: usize = self.ids.len();
        let ghost all = text::texts(self.ids@);
        while i < n
            invariant
                n == self.ids@.len(),
                i <= n,
                self.ids@ == old(self).ids@,
                all == text::texts(self.ids@),
                register_error(session@, declares) is None,
                forall|j: int| 0 <= j < i ==> #[trigger] all[j] != session@.0,
            decreases n - i,
        {
            assert(all[i as int] == self.ids@[i as int]@);
            if text::str_eq(self.ids[i].as_str(), session.id.as_str()) {
                assert(all.contains(session@.0));
                return Ok(());
            }
            i += 1;
        }
        assert(!all.contains(session@.0));
        self.ids.push(session.id.clone());
        assert(text::texts(self.ids@) =~= all.push(session@.0));
        Ok(())
    }
}

/// A plugin no longer answers.
pub fn unregister(ready: &mut Ready, plugin_id: &str)
    ensures
        text::texts(final(ready).ids@) == without_id(text::texts(old(ready).ids@), plugin_id@),
{
    let ghost all = text::texts(ready.ids@);
    let n: usize = ready.ids.len();
    let mut out: Vec<String> = Vec::new();
    let mut i: usize = 0;
    assert(all.take(0) =~= Seq::<Seq<char>>::empty());
    assert(text::texts(out@) =~= Seq::<Seq<char>>::empty());
    while i < n
        invariant
            n == ready.ids@.len(),
            i <= n,
            all == text::texts(ready.ids@),
            text::texts(out@) == without_id(all.take(i as int), plugin_id@),
        decreases n - i,
    {
        assert(all.take(i + 1).drop_last() =~= all.take(i as int));
        assert(all.take(i + 1).last() == ready.ids@[i as int]@);
        if !text::str_eq(ready.ids[i].as_str(), plugin_id) {
            let ghost before = out@;
            out.push(ready.ids[i].clone());
            assert(text::texts(out@) =~= text::texts(before).push(all[i as int]));
        }
        i += 1;
    }
    assert(all.take(i as int) =~= all);
    ready.ids = out;
}

// ---------------------------------------------------------------------------
// One query
// ---------------------------------------------------------------------------

/// The results of one query so far, by plugin.
#[derive(Debug)]
pub struct Round {
    slots: Table<Vec<SearchItem>>,
    expect: usize,
}

/// All results, plugin by plugin.
pub open spec fn all_items(rows: Seq<(String, Vec<SearchItem>)>) -> Seq<ItemView>
    decreases rows.len(),
{
    if rows.len() == 0 {
        Seq::empty()
    } else {
        all_items(rows.drop_last()) + item_views(rows.last().1@)
    }
}

/// The results that a plugin's first results become.
pub open spec fn first_items(items: Seq<PushItem>, plugin_id: Seq<char>) -> Seq<ItemView> {
    let n = if items.len() < MAX_ITEMS_PER_PLUGIN {
        items.len()
    } else {
        MAX_ITEMS_PER_PLUGIN as nat
    };
    Seq::new(n, |i: int| search_item(items[i], plugin_id))
}

fn convert(items: Vec<PushItem>, plugin_id: &str) -> (r: Vec<SearchItem>)
    ensures
        item_views(r@) == first_items(items@, plugin_id@),
{
    let ghost all = items@;
    let mut left = items;
    let mut out: Vec<SearchItem> = Vec::new();
    assert(left@ =~= all.skip(0));
    while left.len() > 0 && out.len() < MAX_ITEMS_PER_PLUGIN
        invariant
            out@.len() <= MAX_ITEMS_PER_PLUGIN,
            out@.len() <= all.len(),
            left@ == all.skip(out@.len() as int),
            forall|j: int|
                0 <= j < out@.len() ==> (#[trigger] out@[j])@ == search_item(all[j], plugin_id@),
        decreases left@.len(),
    {
        let ghost k = out@.len() as int;
        let it = left.remove(0);
        assert(it == all[k]);
        assert(left@ =~= all.skip(k + 1));
        out.push(it.into_search_item(plugin_id));
    }
    assert(item_views(out@) =~= first_items(all, plugin_id@));
    out
}

/// Whether rows are those before with the results of a plugin in place of its earlier ones.
pub open spec fn answered(
    before: Seq<(String, Vec<SearchItem>)>,
    after: Seq<(String, Vec<SearchItem>)>,
    plugin_id: Seq<char>,
    items: Seq<PushItem>,
) -> bool {
    &&& after.len() > 0
    &&& after.drop_last() == crate::table::rows_without(before, plugin_id)
    &&& after.last().0@ == plugin_id
    &&& item_views(after.last().1@) == first_items(items, plugin_id)
}

impl Round {
    /// The results by plugin, row by row.
    pub closed spec fn rows(&self) -> Seq<(String, Vec<SearchItem>)> {
        self.slots.rows()
    }

    /// The results by plugin.
    pub closed spec fn slots(&self) -> Map<Seq<char>, Vec<SearchItem>> {
        self.slots@
    }

    /// How many plugins were asked.
    pub closed spec fn expect(&self) -> usize {
        self.expect
    }

    pub fn new(expect: usize) -> (r: Self)
        ensures
            r.slots() == Map::<Seq<char>, Vec<SearchItem>>::empty(),
            r.rows() == Seq::<(String, Vec<SearchItem>)>::empty(),
            r.expect() == expect,
    {
        Round { slots: Table::new(), expect }
    }

    /// Takes the results of a plugin, in place of earlier ones: the first
    /// [`MAX_ITEMS_PER_PLUGIN`].
    pub fn answer(&mut self, plugin_id: &str, items: Vec<PushItem>)
        ensures
            final(self).expect() == old(self).expect(),
            final(self).slots() == old(self).slots().insert(
                plugin_id@,
                final(self).slots()[plugin_id@],
            ),
            item_views(final(self).slots()[plugin_id@]@) == first_items(items@, plugin_id@),
            answered(old(self).rows(), final(self).rows(), plugin_id@, items@),
    {
        let converted = convert(items, plugin_id);
        self.slots.insert(text::owned(plugin_id), converted);
        assert(self.slots.rows().drop_last() =~= crate::table::rows_without(
            old(self).slots.rows(),
            plugin_id@,
        ));
    }

    /// Whether to go on waiting: not all plugins have answered, and there is time left.
    pub fn waits(&self, left_ms: u64) -> (r: bool)
        ensures
            r == goes_on_waiting(self.rows().len(), self.expect(), left_ms),
            r == (self.rows().len() < self.expect() && left_ms > 0),
    {
        self.slots.len() < self.expect && left_ms > 0
    }

    /// All results so far.
    pub fn collect(&self) -> (r: Vec<SearchItem>)
        ensures
            item_views(r@) == all_items(self.rows()),
    {
        let ghost rows = self.slots.rows();
        let n: usize = self.slots.len();
        let mut out: Vec<SearchItem> = Vec::new();
        let mut i: usize = 0;
        assert(rows.take(0) =~= Seq::<(String, Vec<SearchItem>)>::empty());
        assert(item_views(out@) =~= Seq::<ItemView>::empty());
        while i < n
            invariant
                n == rows.len(),
                i <= n,
                rows == self.slots.rows(),
                item_views(out@) == all_items(rows.take(i as int)),
            decreases n - i,
        {
            assert(rows.take(i + 1).drop_last() =~= rows.take(i as int));
            let items = &self.slots.row(i).1;
            let ghost start = item_views(out@);
            let mut k: usize = 0;
            assert(start + item_views(items@).take(0) =~= start);
            while k < items.len()
                invariant
                    k <= items@.len(),
                    item_views(out@) == start + item_views(items@).take(k as int),
                decreases items@.len() - k,
            {
                let ghost before = out@;
                out.push(items[k].clone());
                assert(item_views(out@) =~= item_views(before).push(items@[k as int]@));
                assert(start + item_views(items@).take(k + 1) =~= (start + item_views(items@).take(
                    k as int,
                )).push(items@[k as int]@));
                k += 1;
            }
            assert(item_views(items@).take(k as int) =~= item_views(items@));
            i += 1;
        }
        assert(rows.take(i as int) =~= rows);
        out
    }
}

/// Whether a query is put to plugins: it is not blank, and there are plugins that answer.
pub fn is_asked(query: &str, ready: &Ready) -> (r: bool)
    ensures
        r == is_put_to_plugins(query@, ready.ids@.len()),
        r == (text::trimmed(query@).len() > 0 && ready.ids@.len() > 0),
{
    !text::is_blank(query) && ready.ids.len() > 0
}

/// The script that puts a query to a page.
pub open spec fn query_script(round_id: Seq<char>, query: Seq<char>) -> Seq<char> {
    page::emit_text(
        "main-push"@,
        "{\"query\":"@ + json::json_quoted(query) + ",\"roundId\":"@ + json::json_quoted(round_id)
            + "}"@,
    )
}

/// Writes the script that puts a query to a page, see [`query_script`].
pub fn push_script(round_id: &str, query: &str) -> (r: String)
    ensures
        r@ == query_script(round_id@, query@),
{
    let q = json::quote(query);
    let id = json::quote(round_id);
    let payload = text::owned("{\"query\":").concat(q.as_str()).concat(",\"roundId\":").concat(
        id.as_str(),
    ).concat("}");
    page::emit_script("main-push", payload.as_str())
}

/// The queries that are being answered, by their ids.
#[derive(Debug)]
pub struct Rounds {
    open: Table<Round>,
}

impl View for Rounds {
    type V = Map<Seq<char>, Round>;

    closed spec fn view(&self) -> Map<Seq<char>, Round> {
        self.open@
    }
}

impl Rounds {
    pub fn new() -> (r: Self)
        ensures
            r@ == Map::<Seq<char>, Round>::empty(),
    {
        Rounds { open: Table::new() }
    }

    /// Starts a query that so many plugins are asked.
    pub fn begin(&mut self, round_id: &str, expect: usize)
        ensures
            final(self)@.dom() == old(self)@.dom().insert(round_id@),
            final(self)@[round_id@].expect() == expect,
            final(self)@[round_id@].rows() == Seq::<(String, Vec<SearchItem>)>::empty(),
            forall|k: Seq<char>|
                k != round_id@ && old(self)@.dom().contains(k) ==> #[trigger] final(self)@[k]
                    == old(self)@[k],
    {
        self.open.insert(text::owned(round_id), Round::new(expect));
        assert(self.open@.dom() =~= old(self).open@.dom().insert(round_id@));
    }

    /// Takes the results of a plugin for a query. Results for a query that is over are
    /// dropped; that is no error.
    pub fn answer(&mut self, round_id: &str, plugin_id: &str, items: Vec<PushItem>)
        ensures
            final(self)@.dom() == old(self)@.dom(),
            forall|k: Seq<char>|
                k != round_id@ && old(self)@.dom().contains(k) ==> #[trigger] final(self)@[k]
                    == old(self)@[k],
            old(self)@.dom().contains(round_id@) ==> {
                &&& final(self)@[round_id@].expect() == old(self)@[round_id@].expect()
                &&& final(self)@[round_id@].slots() == old(self)@[round_id@].slots().insert(
                    plugin_id@,
                    final(self)@[round_id@].slots()[plugin_id@],
                )
                &&& item_views(final(self)@[round_id@].slots()[plugin_id@]@) == first_items(
                    items@,
                    plugin_id@,
                )
                &&& answered(
                    old(self)@[round_id@].rows(),
                    final(self)@[round_id@].rows(),
                    plugin_id@,
                    items@,
                )
            },
    {
        match self.open.remove(round_id) {
            None => {
                assert(self.open@ =~= old(self).open@);
            },
            Some(mut round) => {
                round.answer(plugin_id, items);
                self.open.insert(text::owned(round_id), round);
                assert(self.open@.dom() =~= old(self).open@.dom());
            },
        }
    }

    /// Whether to go on waiting for a query.
    pub fn waits(&self, round_id: &str, left_ms: u64) -> (r: bool)
        ensures
            r == (self@.dom().contains(round_id@) && self@[round_id@].rows().len()
                < self@[round_id@].expect() && left_ms > 0),
    {
        match self.open.get(round_id) {
            Some(round) => round.waits(left_ms),
            None => false,
        }
    }

    /// Ends a query and gives what came in.
    pub fn finish(&mut self, round_id: &str) -> (r: Vec<SearchItem>)
        ensures
            final(self)@ == old(self)@.remove(round_id@),
            item_views(r@) == (if old(self)@.dom().contains(round_id@) {
                all_items(old(self)@[round_id@].rows())
            } else {
                Seq::empty()
            }),
    {
        match self.open.remove(round_id) {
            Some(round) => round.collect(),
            None => {
                let none: Vec<SearchItem> = Vec::new();
                assert(item_views(none@) =~= Seq::<ItemView>::empty());
                none
            },
        }
    }
}

/// The id of a query: the time in nanoseconds and a running number.
pub fn new_round_id(nanos: u128, n: u64) -> (r: String)
    ensures
        r@ == codec::hex_number(nanos as nat) + "-"@ + codec::hex_number(n as nat),
{
    let time = codec::hex_of(nanos);
    let number = codec::hex_of(n as u128);
    time.concat("-").concat(number.as_str())
}

/// No plugin fills the search: it gives at most eight results for a query, and each says which
/// plugin it is from and is marked as a plugin's.
pub proof fn pushed_results_are_marked(items: Seq<PushItem>, plugin_id: Seq<char>)
    ensures
        first_items(items, plugin_id).len() <= 8,
        forall|k: int|
            0 <= k < first_items(items, plugin_id).len() ==> {
                let e = #[trigger] first_items(items, plugin_id)[k];
                &&& e.kind == "plugin"@
                &&& e.action == "plugin"@
                &&& plugin_id.is_prefix_of(e.target)
                &&& (plugin_id.is_prefix_of(e.subtitle) || plugin_id.is_suffix_of(e.subtitle))
            },
{
    assert forall|k: int| 0 <= k < first_items(items, plugin_id).len() implies {
        let e = #[trigger] first_items(items, plugin_id)[k];
        &&& plugin_id.is_prefix_of(e.target)
        &&& (plugin_id.is_prefix_of(e.subtitle) || plugin_id.is_suffix_of(e.subtitle))
    } by {
        let e = first_items(items, plugin_id)[k];
        assert(e == search_item(items[k], plugin_id));
        assert(plugin_id =~= e.target.subrange(0, plugin_id.len() as int));
        if items[k].subtitle@.len() == 0 {
            assert(plugin_id =~= e.subtitle.subrange(0, plugin_id.len() as int));
        } else {
            assert(plugin_id =~= e.subtitle.subrange(
                e.subtitle.len() - plugin_id.len(),
                e.subtitle.len() as int,
            ));
        }
    }
}

/// The first eight results of a plugin are shown, in its order, each with the title, the words
/// and the picture that the plugin gave it.
pub proof fn pushed_results_are_kept(items: Seq<PushItem>, plugin_id: Seq<char>, k: int)
    requires
        0 <= k < items.len(),
        k < 8,
    ensures
        ({
            let shown = first_items(items, plugin_id);
            &&& shown.len() == if items.len() < 8 {
                items.len()
            } else {
                8
            }
            &&& shown[k].title == items[k].title@
            &&& shown[k].icon == text::opt_view(items[k].icon)
            &&& items[k].subtitle@.is_prefix_of(shown[k].subtitle) || items[k].subtitle@.len() == 0
            &&& (plugin_id + "#"@ + items[k].code@).is_prefix_of(shown[k].target)
            &&& items[k].payload@.is_suffix_of(shown[k].target)
            &&& items[k].title@.is_suffix_of(shown[k].id)
        }),
{
    let e = search_item(items[k], plugin_id);
    let it = items[k];
    let sub = it.subtitle@;
    assert(first_items(items, plugin_id)[k] == e);
    if sub.len() > 0 {
        assert(e.subtitle.subrange(0, sub.len() as int) =~= sub);
    }
    let front = plugin_id + "#"@ + it.code@;
    assert(e.target.subrange(0, front.len() as int) =~= front);
    let pay = it.payload@;
    let n = e.target.len();
    assert(e.target.subrange(n - pay.len(), n as int) =~= pay);
    let t = it.title@;
    let m = e.id.len();
    assert(e.id.subrange(m - t.len(), m as int) =~= t);
}

/// Choosing a result opens the feature that the plugin named, in that plugin and in no other;
/// what the plugin gets back with it is what it gave.
pub proof fn chosen_results_open_their_plugin(it: PushItem, plugin_id: Seq<char>)
    requires
        !plugin_id.contains('#'),
        !"dev:"@.is_prefix_of(plugin_id),
    ensures
        crate::commands::route_of(search_item(it, plugin_id).target) == Ok::<
            crate::commands::RouteView,
            Seq<char>,
        >(
            crate::commands::RouteView::Installed(
                plugin_id,
                if it.payload@.len() == 0 {
                    it.code@
                } else {
                    it.code@ + "\u{1}"@ + it.payload@
                },
            ),
        ),
{
    let target = search_item(it, plugin_id).target;
    let rest = if it.payload@.len() == 0 {
        it.code@
    } else {
        it.code@ + "\u{1}"@ + it.payload@
    };
    assert(target =~= plugin_id + "#"@ + rest);
    crate::commands::targets_lead_to_their_plugin(plugin_id, rest, Seq::empty());
}

/// A plugin that is ready is listed, once; the others stay, and one that leaves is not listed.
pub proof fn ready_plugins_are_listed_once(
    v: Seq<Seq<char>>,
    id: Seq<char>,
    other: Seq<char>,
)
    requires
        v.no_duplicates(),
    ensures
        with_id(v, id).contains(id),
        with_id(v, id).no_duplicates(),
        other != id ==> (with_id(v, id).contains(other) <==> v.contains(other)),
        !without_id(v, id).contains(id),
        other != id ==> (without_id(v, id).contains(other) <==> v.contains(other)),
        with_id(v, id).len() <= v.len() + 1,
{
    crate::commands::permission_follows_the_user(v, id, other);
    let w = with_id(v, id);
    if !v.contains(id) {
        assert(w[v.len() as int] == id);
    }
    if other != id {
        if v.contains(other) {
            let i = choose|i: int| 0 <= i < v.len() && v[i] == other;
            assert(w[i] == other);
        }
        if w.contains(other) {
            let i = choose|i: int| 0 <= i < w.len() && w[i] == other;
            assert(v[i] == other);
        }
    }
}

/// Every result that a plugin gave for a query is among those of the query, and there are no
/// others.
pub proof fn every_result_is_collected(
    rows: Seq<(String, Vec<SearchItem>)>,
    e: ItemView,
)
    ensures
        all_items(rows).contains(e) <==> exists|k: int, j: int|
            0 <= k < rows.len() && 0 <= j < rows[k].1@.len() && (#[trigger] rows[k].1@[j])@ == e,
    decreases rows.len(),
{
    let all = all_items(rows);
    if rows.len() > 0 {
        let less = rows.drop_last();
        let before = all_items(less);
        let last = item_views(rows.last().1@);
        every_result_is_collected(less, e);
        if all.contains(e) {
            let i = choose|i: int| 0 <= i < all.len() && all[i] == e;
            if i < before.len() {
                assert(before[i] == e);
                let (k, j) = choose|k: int, j: int|
                    0 <= k < less.len() && 0 <= j < less[k].1@.len() && (
                    #[trigger] less[k].1@[j])@ == e;
                assert(rows[k] == less[k]);
                assert(rows[k].1@[j]@ == e);
            } else {
                let j = i - before.len();
                assert(last[j] == e);
                assert(rows[rows.len() - 1].1@[j]@ == e);
            }
        }
        if exists|k: int, j: int|
            0 <= k < rows.len() && 0 <= j < rows[k].1@.len() && (#[trigger] rows[k].1@[j])@ == e {
            let (k, j) = choose|k: int, j: int|
                0 <= k < rows.len() && 0 <= j < rows[k].1@.len() && (#[trigger] rows[k].1@[j])@
                    == e;
            if k < less.len() {
                assert(less[k] == rows[k]);
                assert(less[k].1@[j]@ == e);
                assert(before.contains(e));
                let i = choose|i: int| 0 <= i < before.len() && before[i] == e;
                assert(all[i] == e);
            } else {
                assert(last[j] == e);
                assert(all[before.len() + j] == e);
            }
        }
    }
}

/// Whether a query goes on waiting: so many plugins have answered of those that were asked, and
/// so much time is left.
pub open spec fn goes_on_waiting(answers: nat, expect: usize, left_ms: u64) -> bool {
    answers < expect && left_ms > 0
}

/// Whether a query is put to plugins, of which so many are ready.
pub open spec fn is_put_to_plugins(query: Seq<char>, ready: nat) -> bool {
    text::trimmed(query).len() > 0 && ready > 0
}

/// A query waits until every plugin has answered or its time is over, whichever comes first;
/// it waits for none where none was asked.
pub proof fn queries_wait_for_every_answer(answers: nat, expect: usize, left_ms: u64)
    ensures
        goes_on_waiting(answers, expect, left_ms) <==> answers < expect && left_ms >= 1,
        !goes_on_waiting(expect as nat, expect, left_ms),
        !goes_on_waiting(answers, expect, 0),
        !goes_on_waiting(answers, 0, left_ms),
{
}

/// A query with anything but white space in it is put to plugins wherever one is ready, and a
/// blank one never.
pub proof fn only_real_queries_are_put_to_plugins(query: Seq<char>, ready: nat, k: int)
    ensures
        0 <= k < query.len() && !text::is_space(query[k]) && ready >= 1 ==> is_put_to_plugins(
            query,
            ready,
        ),
        (forall|i: int| 0 <= i < query.len() ==> text::is_space(#[trigger] query[i]))
            ==> !is_put_to_plugins(query, ready),
        !is_put_to_plugins(query, 0),
{
    let ends = text::trimming_takes_only_white_space(query);
    let t = text::trimmed(query);
    if 0 <= k < query.len() && !text::is_space(query[k]) && t.len() == 0 {
        assert(query =~= ends.0 + ends.1);
        if k < ends.0.len() {
            assert(query[k] == ends.0[k]);
        } else {
            assert(query[k] == ends.1[k - ends.0.len()]);
        }
    }
    if t.len() > 0 && forall|i: int| 0 <= i < query.len() ==> text::is_space(#[trigger] query[i]) {
        assert(query[ends.0.len() as int] == t[0]);
    }
}

/// A plugin may answer queries where one of its features says that it does and it does not run
/// for development, and only there.
pub proof fn declared_plugins_may_answer(name: Seq<char>)
    ensures
        register_error((name, false), true) is None,
        register_error((name, false), false) is Some,
        register_error((name, true), true) is Some,
        register_error((name, true), false) is Some,
{
}

} // verus!
