//! The status page: an HTML template filled with routes and servers, to be drawn by
//! a browser.

use crate::codec::{base64_encode, base64_encoded, picture_jpeg, to_jpeg};
use crate::json::{
    fixed_field, get_fixed, get_list, is_truthy_field, items, list_field, worded_field, get_worded,
    truthy_field, Json, JsonV,
};
use crate::services::commands::{
    address_texts, clean_player_names, default_address_texts, default_addresses, names,
    player_name, player_names, says_yes, truth_is_said,
};
use crate::text::{
    a_part_occurs, begins, has, join2, join3, joining_loses_nothing, occurring_passes_on, replace,
    replaced, stands_at, texts, Text,
};
use vstd::prelude::*;

verus! {

/// JPEG quality of the background.
pub const BACKGROUND_QUALITY: u8 = 60;

pub const GRADIENT: &'static str = "background: linear-gradient(135deg, #1a1a2e 0%, #16213e 50%, #0f3460 100%);";

pub const ITEM_HEAD: &'static str = "\n            <div class=\"item\">\n                <div class=\"item-name\">";

pub const ITEM_STATUS: &'static str = "</div>\n                <div class=\"status\" style=\"color: ";

pub const ITEM_LATENCY: &'static str = "</div>\n                <div class=\"detail\">延迟: ";

pub const ITEM_LOSS: &'static str = "</div>\n                <div class=\"detail\">丢包: ";

pub const ITEM_PLAYERS: &'static str = "</div>\n                ";

pub const ITEM_END: &'static str = "\n            </div>";

pub const NO_PLAYERS: &'static str = "<div class='players'><div class='player'>(无)</div></div>";

/// The rows of addresses.
pub open spec fn addresses_html(addresses: Seq<(Text, Text)>) -> Text
    decreases addresses.len(),
{
    if addresses.len() == 0 {
        Seq::<char>::empty()
    } else {
        addresses_html(addresses.drop_last())
            + "<div class=\"address-row\"><span class=\"address-label\">"@ + addresses.last().0
            + "</span><span class=\"address-value\">"@ + addresses.last().1 + "</span></div>"@
    }
}

/// The colour, mark and word of something that is online or not.
pub open spec fn state_html(online: bool) -> Text {
    if online {
        "#4caf50;\">✅ 在线"@
    } else {
        "#f44336;\">❌ 离线"@
    }
}

/// The item of a route. A row that is no object has none.
pub open spec fn route_html(route: JsonV) -> Text {
    match route {
        JsonV::Object(_) => {
            let online = truthy_field(route, "online"@);
            ITEM_HEAD@ + worded_field(route, "route_name"@, "Unknown"@) + ITEM_STATUS@ + state_html(online)
                + ITEM_LATENCY@ + (if online {
                fixed_field(route, "latency"@, 2, "0.00"@) + "ms"@
            } else {
                "N/A"@
            }) + ITEM_LOSS@ + (if online {
                fixed_field(route, "packet_loss"@, 1, "0.0"@) + "%"@
            } else {
                "N/A"@
            }) + "</div>"@ + ITEM_END@
        },
        _ => Seq::<char>::empty(),
    }
}

/// The items of routes in a row.
pub open spec fn routes_html(routes: Seq<JsonV>) -> Text
    decreases routes.len(),
{
    if routes.len() == 0 {
        Seq::<char>::empty()
    } else {
        routes_html(routes.drop_last()) + route_html(routes.last())
    }
}

/// The names of players, each in a box of its own.
pub open spec fn names_html(names: Seq<Text>) -> Text
    decreases names.len(),
{
    if names.len() == 0 {
        Seq::<char>::empty()
    } else {
        names_html(names.drop_last()) + "<div class='player'>"@ + names.last() + "</div>"@
    }
}

/// The players of a server; none are shown while it is offline.
pub open spec fn players_html(online: bool, names: Seq<Text>) -> Text {
    if !online {
        Seq::<char>::empty()
    } else if names.len() == 0 {
        NO_PLAYERS@
    } else {
        "<div class='players'>"@ + names_html(names) + "</div>"@
    }
}

/// The item of a server. A row that is no object has none.
pub open spec fn server_html(server: JsonV) -> Text {
    match server {
        JsonV::Object(_) => {
            let online = truthy_field(server, "online"@);
            ITEM_HEAD@ + worded_field(server, "server_name"@, "Unknown"@) + ITEM_STATUS@ + state_html(
                online,
            ) + ITEM_PLAYERS@ + players_html(
                online,
                player_names(list_field(server, "online_players"@)),
            ) + ITEM_END@
        },
        _ => Seq::<char>::empty(),
    }
}

/// The items of servers in a row.
pub open spec fn servers_html(servers: Seq<JsonV>) -> Text
    decreases servers.len(),
{
    if servers.len() == 0 {
        Seq::<char>::empty()
    } else {
        servers_html(servers.drop_last()) + server_html(servers.last())
    }
}

/// The style of the background: a picture in base64, or a gradient.
pub open spec fn background_css(picture: Option<Text>) -> Text {
    match picture {
        Some(b) => "background: url('data:image/jpeg;base64,"@ + b + "') no-repeat center center;"@,
        None => GRADIENT@,
    }
}

/// The template with its four places filled, and double braces made single.
pub open spec fn filled(
    template: Text,
    background: Text,
    addresses: Text,
    routes: Text,
    servers: Text,
) -> Text {
    let a = replaced(template, "{background}"@, background);
    let b = replaced(a, "{addresses}"@, addresses);
    let c = replaced(b, "{routes}"@, routes);
    let d = replaced(c, "{servers}"@, servers);
    replaced(replaced(d, "{{"@, "{"@), "}}"@, "}"@)
}

/// The addresses that are shown: the given ones, or the default ones where none are.
pub open spec fn shown_addresses(addresses: Option<Seq<(Text, Text)>>) -> Seq<(Text, Text)> {
    match addresses {
        Some(a) => if a.len() > 0 {
            a
        } else {
            default_address_texts()
        },
        None => default_address_texts(),
    }
}

/// The status page.
pub open spec fn status_html(
    template: Text,
    data: JsonV,
    picture: Option<Text>,
    addresses: Option<Seq<(Text, Text)>>,
) -> Text {
    filled(
        template,
        background_css(picture),
        addresses_html(shown_addresses(addresses)),
        routes_html(list_field(data, "network_routes"@)),
        servers_html(list_field(data, "servers"@)),
    )
}

/// The rows of addresses.
fn build_addresses(addresses: &Vec<(String, String)>) -> (r: String)
    ensures
        r@ == addresses_html(address_texts(addresses@)),
{
    let mut out = String::new();
    let ghost all = address_texts(addresses@);
    let mut i: usize = 0;
    assert(out@ =~= addresses_html(all.take(0)));
    while i < addresses.len()
        invariant
            i <= addresses@.len(),
            all == address_texts(addresses@),
            out@ == addresses_html(all.take(i as int)),
        decreases addresses@.len() - i,
    {
        assert(all.take(i + 1).drop_last() =~= all.take(i as int));
        assert(all.take(i + 1).last() == (addresses@[i as int].0@, addresses@[i as int].1@));
        out.append("<div class=\"address-row\"><span class=\"address-label\">");
        out.append(addresses[i].0.as_str());
        out.append("</span><span class=\"address-value\">");
        out.append(addresses[i].1.as_str());
        out.append("</span></div>");
        i = i + 1;
    }
    assert(all.take(i as int) =~= all);
    out
}

/// The colour, mark and word of something that is online or not.
fn state_of(online: bool) -> (r: &'static str)
    ensures
        r@ == state_html(online),
{
    if online {
        "#4caf50;\">✅ 在线"
    } else {
        "#f44336;\">❌ 离线"
    }
}

/// The item of a route.
fn build_route(route: &Json) -> (r: String)
    ensures
        r@ == route_html(route@),
{
    match route {
        Json::Object(_) => {},
        _ => {
            return String::new();
        },
    }
    let online = is_truthy_field(route, "online");
    let latency = if online {
        join2(get_fixed(route, "latency", 2, "0.00").as_str(), "ms")
    } else {
        "N/A".to_owned()
    };
    let loss = if online {
        join2(get_fixed(route, "packet_loss", 1, "0.0").as_str(), "%")
    } else {
        "N/A".to_owned()
    };
    let mut out = join3(
        ITEM_HEAD,
        get_worded(route, "route_name", "Unknown").as_str(),
        ITEM_STATUS,
    );
    out.append(state_of(online));
    out.append(ITEM_LATENCY);
    out.append(latency.as_str());
    out.append(ITEM_LOSS);
    out.append(loss.as_str());
    out.append("</div>");
    out.append(ITEM_END);
    out
}

/// The items of routes in a row.
fn build_routes(routes: &Vec<Json>) -> (r: String)
    ensures
        r@ == routes_html(items(routes@)),
{
    let mut out = String::new();
    let ghost all = items(routes@);
    let mut i: usize = 0;
    assert(out@ =~= routes_html(all.take(0)));
    while i < routes.len()
        invariant
            i <= routes@.len(),
            all == items(routes@),
            out@ == routes_html(all.take(i as int)),
        decreases routes@.len() - i,
    {
        assert(all.take(i + 1).drop_last() =~= all.take(i as int));
        assert(all.take(i + 1).last() == routes@[i as int]@);
        out.append(build_route(&routes[i]).as_str());
        i = i + 1;
    }
    assert(all.take(i as int) =~= all);
    out
}

/// The players of a server.
fn build_players(online: bool, names: &Vec<String>) -> (r: String)
    ensures
        r@ == players_html(online, texts(names@)),
{
    if !online {
        return String::new();
    }
    if names.len() == 0 {
        return NO_PLAYERS.to_owned();
    }
    let mut inside = String::new();
    let ghost all = texts(names@);
    let mut i: usize = 0;
    assert(inside@ =~= names_html(all.take(0)));
    while i < names.len()
        invariant
            i <= names@.len(),
            all == texts(names@),
            inside@ == names_html(all.take(i as int)),
        decreases names@.len() - i,
    {
        assert(all.take(i + 1).drop_last() =~= all.take(i as int));
        assert(all.take(i + 1).last() == names@[i as int]@);
        inside.append("<div class='player'>");
        inside.append(names[i].as_str());
        inside.append("</div>");
        i = i + 1;
    }
    assert(all.take(i as int) =~= all);
    join3("<div class='players'>", inside.as_str(), "</div>")
}

/// The item of a server.
fn build_server(server: &Json) -> (r: String)
    ensures
        r@ == server_html(server@),
{
    match server {
        Json::Object(_) => {},
        _ => {
            return String::new();
        },
    }
    let online = is_truthy_field(server, "online");
    let names = clean_player_names(&get_list(server, "online_players"));
    let mut out = join3(
        ITEM_HEAD,
        get_worded(server, "server_name", "Unknown").as_str(),
        ITEM_STATUS,
    );
    out.append(state_of(online));
    out.append(ITEM_PLAYERS);
    out.append(build_players(online, &names).as_str());
    out.append(ITEM_END);
    out
}

/// The items of servers in a row.
fn build_servers(servers: &Vec<Json>) -> (r: String)
    ensures
        r@ == servers_html(items(servers@)),
{
    let mut out = String::new();
    let ghost all = items(servers@);
    let mut i: usize = 0;
    assert(out@ =~= servers_html(all.take(0)));
    while i < servers.len()
        invariant
            i <= servers@.len(),
            all == items(servers@),
            out@ == servers_html(all.take(i as int)),
        decreases servers@.len() - i,
    {
        assert(all.take(i + 1).drop_last() =~= all.take(i as int));
        assert(all.take(i + 1).last() == servers@[i as int]@);
        out.append(build_server(&servers[i]).as_str());
        i = i + 1;
    }
    assert(all.take(i as int) =~= all);
    out
}

/// Fills the template of the status page.
pub fn build_status_html(
    template: &str,
    data: &Json,
    background_base64: Option<&str>,
    addresses: Option<&Vec<(String, String)>>,
) -> (r: String)
    ensures
        r@ == status_html(
            template@,
            data@,
            match background_base64 {
                Some(b) => Some(b@),
                None => None,
            },
            match addresses {
                Some(a) => Some(address_texts(a@)),
                None => None,
            },
        ),
{
    proof {
        reveal_strlit("{background}");
        reveal_strlit("{addresses}");
        reveal_strlit("{routes}");
        reveal_strlit("{servers}");
        reveal_strlit("{{");
        reveal_strlit("}}");
    }
    let rows = match addresses {
        Some(a) => if a.len() > 0 {
            build_addresses(a)
        } else {
            build_addresses(&default_addresses())
        },
        None => build_addresses(&default_addresses()),
    };
    let routes = build_routes(&get_list(data, "network_routes"));
    let servers = build_servers(&get_list(data, "servers"));
    let background = match background_base64 {
        Some(b) => join3(
            "background: url('data:image/jpeg;base64,",
            b,
            "') no-repeat center center;",
        ),
        None => GRADIENT.to_owned(),
    };
    let page = replace(template, "{background}", background.as_str());
    let page = replace(page.as_str(), "{addresses}", rows.as_str());
    let page = replace(page.as_str(), "{routes}", routes.as_str());
    let page = replace(page.as_str(), "{servers}", servers.as_str());
    let page = replace(page.as_str(), "{{", "{");
    replace(page.as_str(), "}}", "}")
}

/// Why a page could not be drawn.
#[derive(Debug)]
pub enum RenderError {
    /// No browser is built in.
    Unsupported(&'static str),
    /// There is no browser.
    ChromeNotFound,
    /// The browser failed.
    Chrome(String),
    /// The page could not be handed over.
    Serialize(String),
}

impl RenderError {
    /// The message of the error.
    pub fn message(&self) -> (r: String)
        ensures
            r@ == match self {
                RenderError::Unsupported(_) => "status-image feature 未启用"@,
                RenderError::ChromeNotFound =>
                    "未找到可用的 Chrome/Chromium（可通过环境变量 CHROME_PATH 指定路径）"@,
                RenderError::Chrome(m) => "Chromium 渲染失败: "@ + m@,
                RenderError::Serialize(m) => "HTML 序列化失败: "@ + m@,
            },
    {
        match self {
            RenderError::Unsupported(_) => "status-image feature 未启用".to_owned(),
            RenderError::ChromeNotFound =>
                "未找到可用的 Chrome/Chromium（可通过环境变量 CHROME_PATH 指定路径）".to_owned(),
            RenderError::Chrome(m) => join2("Chromium 渲染失败: ", m.as_str()),
            RenderError::Serialize(m) => join2("HTML 序列化失败: ", m.as_str()),
        }
    }
}

/// How the page is drawn.
#[derive(Debug)]
pub struct StatusRenderer {
    pub width: u32,
    pub height: u32,
    pub addresses: Option<Vec<(String, String)>>,
}

impl StatusRenderer {
    /// A window of 1500 by 1400.
    pub fn new(addresses: Option<Vec<(String, String)>>) -> (r: Self)
        ensures
            r.width == 1500,
            r.height == 1400,
            r.addresses == addresses,
    {
        StatusRenderer { width: 1500, height: 1400, addresses }
    }

    /// The page to draw; nothing for data that is no object. `background` is a
    /// picture, which is encoded again; one that cannot be read is left out.
    pub fn page(&self, template: &str, data: &Json, background: &[u8]) -> (r: Option<String>)
        ensures
            r is Some <==> data@ is Object,
            r matches Some(html) ==> html@ == status_html(
                template@,
                data@,
                background_text(background@),
                match self.addresses {
                    Some(a) => Some(address_texts(a@)),
                    None => None,
                },
            ),
    {
        match data {
            Json::Object(_) => {},
            _ => {
                return None;
            },
        }
        let picture = load_background(background);
        let picture_str: Option<&str> = match &picture {
            Some(p) => Some(p.as_str()),
            None => None,
        };
        let addresses: Option<&Vec<(String, String)>> = match &self.addresses {
            Some(a) => Some(a),
            None => None,
        };
        Some(build_status_html(template, data, picture_str, addresses))
    }
}

/// A background picture as base64.
pub open spec fn background_text(picture: Seq<u8>) -> Option<Text> {
    match picture_jpeg(picture, BACKGROUND_QUALITY as nat) {
        Some(j) => Some(base64_encoded(j)),
        None => None,
    }
}

/// A background picture, encoded again as JPEG, as base64.
pub fn load_background(picture: &[u8]) -> (r: Option<String>)
    ensures
        match r {
            Some(t) => background_text(picture@) == Some(t@),
            None => background_text(picture@) is None,
        },
{
    match to_jpeg(picture, BACKGROUND_QUALITY) {
        Some(j) => Some(base64_encode(j.as_slice())),
        None => None,
    }
}

// ---- what the page keeps to ----

/// A route is drawn as up exactly where its field `online` says so, and as down
/// otherwise, without figures; its name is on the page.
pub proof fn an_offline_route_is_drawn_as_offline(route: JsonV, name: Text)
    requires
        route is Object,
    ensures
        says_yes(route.field("online"@)) ==> has(route_html(route), "✅ 在线"@) && has(
            route_html(route),
            fixed_field(route, "latency"@, 2, "0.00"@) + "ms"@,
        ) && has(route_html(route), fixed_field(route, "packet_loss"@, 1, "0.0"@) + "%"@),
        !says_yes(route.field("online"@)) ==> has(route_html(route), "❌ 离线"@) && has(
            route_html(route),
            "N/A"@,
        ),
        names(route, "route_name"@, "Unknown"@, name) ==> has(route_html(route), name),
        !says_yes(route.field("online"@)) && names(route, "route_name"@, "Unknown"@, name)
            ==> route_html(route) == ITEM_HEAD@ + name + ITEM_STATUS@ + "#f44336;\">❌ 离线"@
            + ITEM_LATENCY@ + "N/A"@ + ITEM_LOSS@ + "N/A"@ + "</div>"@ + ITEM_END@,
{
    truth_is_said(route, "online"@);
    let online = says_yes(route.field("online"@));
    let shown = worded_field(route, "route_name"@, "Unknown"@);
    let html = route_html(route);
    let latency = if online {
        fixed_field(route, "latency"@, 2, "0.00"@) + "ms"@
    } else {
        "N/A"@
    };
    let loss = if online {
        fixed_field(route, "packet_loss"@, 1, "0.0"@) + "%"@
    } else {
        "N/A"@
    };
    let state = state_html(online);
    let a = ITEM_HEAD@;
    let b = a + shown + ITEM_STATUS@;
    let c = b + state + ITEM_LATENCY@;
    let d = c + latency + ITEM_LOSS@;
    let e = "</div>"@ + ITEM_END@;
    assert(html =~= d + loss + e);
    a_part_occurs(d, loss, e);
    assert(html =~= c + latency + (ITEM_LOSS@ + loss + e));
    a_part_occurs(c, latency, ITEM_LOSS@ + loss + e);
    assert(html =~= b + state + (ITEM_LATENCY@ + latency + ITEM_LOSS@ + loss + e));
    a_part_occurs(b, state, ITEM_LATENCY@ + latency + ITEM_LOSS@ + loss + e);
    lemma_state(online);
    occurring_passes_on(
        html,
        state,
        if online {
            "✅ 在线"@
        } else {
            "❌ 离线"@
        },
    );
    let rest = ITEM_STATUS@ + state + ITEM_LATENCY@ + latency + ITEM_LOSS@ + loss + e;
    assert(html =~= a + shown + rest);
    a_part_occurs(a, shown, rest);
}

/// The word for the state stands in what draws it.
proof fn lemma_state(online: bool)
    ensures
        has(
            state_html(online),
            if online {
                "✅ 在线"@
            } else {
                "❌ 离线"@
            },
        ),
{
    reveal_strlit("#4caf50;\">✅ 在线");
    reveal_strlit("#f44336;\">❌ 离线");
    reveal_strlit("✅ 在线");
    reveal_strlit("❌ 离线");
    let s = state_html(online);
    let u = if online {
        "✅ 在线"@
    } else {
        "❌ 离线"@
    };
    let n = s.len() - u.len();
    assert(s.subrange(n, n + u.len()) =~= u);
    assert(stands_at(s, u, n));
}

/// A server is drawn as up exactly where its field `online` says so, with the name of
/// each of its players; one that is down is drawn without any. Its name is on the page.
pub proof fn an_offline_server_is_drawn_as_offline(server: JsonV, name: Text, i: int)
    requires
        server is Object,
    ensures
        says_yes(server.field("online"@)) ==> has(server_html(server), "✅ 在线"@),
        !says_yes(server.field("online"@)) ==> has(server_html(server), "❌ 离线"@),
        names(server, "server_name"@, "Unknown"@, name) ==> has(server_html(server), name),
        says_yes(server.field("online"@)) ==> (server.field("online_players"@) matches Some(
            JsonV::Array(players),
        ) ==> {
            &&& 0 <= i < players.len() ==> has(server_html(server), player_name(players[i]))
            &&& players.len() == 0 ==> has(server_html(server), NO_PLAYERS@)
        }),
        !says_yes(server.field("online"@)) && names(server, "server_name"@, "Unknown"@, name)
            ==> server_html(server) == ITEM_HEAD@ + name + ITEM_STATUS@ + "#f44336;\">❌ 离线"@
            + ITEM_PLAYERS@ + ITEM_END@,
{
    truth_is_said(server, "online"@);
    let online = says_yes(server.field("online"@));
    let shown = worded_field(server, "server_name"@, "Unknown"@);
    let html = server_html(server);
    let all = player_names(list_field(server, "online_players"@));
    let people = players_html(online, all);
    let state = state_html(online);
    let a = ITEM_HEAD@;
    let b = a + shown + ITEM_STATUS@;
    let c = b + state + ITEM_PLAYERS@;
    assert(html =~= c + people + ITEM_END@);
    a_part_occurs(c, people, ITEM_END@);
    assert(html =~= b + state + (ITEM_PLAYERS@ + people + ITEM_END@));
    a_part_occurs(b, state, ITEM_PLAYERS@ + people + ITEM_END@);
    lemma_state(online);
    occurring_passes_on(
        html,
        state,
        if online {
            "✅ 在线"@
        } else {
            "❌ 离线"@
        },
    );
    let rest = ITEM_STATUS@ + state + ITEM_PLAYERS@ + people + ITEM_END@;
    assert(html =~= a + shown + rest);
    a_part_occurs(a, shown, rest);
    if online {
        match server.field("online_players"@) {
            Some(JsonV::Array(players)) => {
                if 0 <= i < players.len() {
                    assert(all[i] == player_name(players[i]));
                    every_name_is_drawn(all, i);
                    a_part_occurs("<div class='players'>"@, names_html(all), "</div>"@);
                    occurring_passes_on(people, names_html(all), all[i]);
                    occurring_passes_on(html, people, all[i]);
                }
            },
            _ => {},
        }
    }
}

/// Every name of a list is drawn.
pub proof fn every_name_is_drawn(all: Seq<Text>, i: int)
    requires
        0 <= i < all.len(),
    ensures
        has(names_html(all), all[i]),
    decreases all.len(),
{
    let init = all.drop_last();
    let before = names_html(init);
    let open = "<div class='player'>"@;
    let shut = "</div>"@;
    if i == all.len() - 1 {
        a_part_occurs(before + open, all.last(), shut);
    } else {
        every_name_is_drawn(init, i);
        assert(init[i] == all[i]);
        assert(names_html(all) =~= before + (open + all.last() + shut));
        joining_loses_nothing(before, open + all.last() + shut, all[i]);
    }
}

/// The routes of two lists are drawn as those of the one and then those of the other, so
/// none is left out.
pub proof fn every_route_is_drawn(a: Seq<JsonV>, b: Seq<JsonV>, route: JsonV)
    ensures
        routes_html(a + b) == routes_html(a) + routes_html(b),
        routes_html(seq![route]) == route_html(route),
    decreases b.len(),
{
    let none = Seq::<JsonV>::empty();
    let nothing = Seq::<char>::empty();
    assert(seq![route].drop_last() =~= none);
    assert(seq![route].last() == route);
    assert(routes_html(none) =~= nothing);
    assert(nothing + route_html(route) =~= route_html(route));
    if b.len() == 0 {
        assert(a + b =~= a);
        assert(b =~= none);
        assert(routes_html(a) + nothing =~= routes_html(a));
    } else {
        every_route_is_drawn(a, b.drop_last(), route);
        assert((a + b).drop_last() =~= a + b.drop_last());
        assert((a + b).last() == b.last());
        assert(routes_html(a + b) =~= routes_html(a) + routes_html(b));
    }
}

/// The servers of two lists are drawn as those of the one and then those of the other, so
/// none is left out.
pub proof fn every_server_is_drawn(a: Seq<JsonV>, b: Seq<JsonV>, server: JsonV)
    ensures
        servers_html(a + b) == servers_html(a) + servers_html(b),
        servers_html(seq![server]) == server_html(server),
    decreases b.len(),
{
    let none = Seq::<JsonV>::empty();
    let nothing = Seq::<char>::empty();
    assert(seq![server].drop_last() =~= none);
    assert(seq![server].last() == server);
    assert(servers_html(none) =~= nothing);
    assert(nothing + server_html(server) =~= server_html(server));
    if b.len() == 0 {
        assert(a + b =~= a);
        assert(b =~= none);
        assert(servers_html(a) + nothing =~= servers_html(a));
    } else {
        every_server_is_drawn(a, b.drop_last(), server);
        assert((a + b).drop_last() =~= a + b.drop_last());
        assert((a + b).last() == b.last());
        assert(servers_html(a + b) =~= servers_html(a) + servers_html(b));
    }
}

/// Every address is drawn, its label before its value; those configured are drawn where
/// there are any, and the usual ones only where there are none.
pub proof fn every_address_is_drawn(a: Seq<(Text, Text)>, b: Seq<(Text, Text)>, label: Text, value: Text)
    ensures
        addresses_html(a + b) == addresses_html(a) + addresses_html(b),
        has(
            addresses_html(seq![(label, value)]),
            label + "</span><span class=\"address-value\">"@ + value,
        ),
        a.len() > 0 ==> shown_addresses(Some(a)) == a,
        shown_addresses(None) == default_address_texts(),
        shown_addresses(Some(Seq::empty())) == default_address_texts(),
    decreases b.len(),
{
    let none = Seq::<(Text, Text)>::empty();
    let nothing = Seq::<char>::empty();
    let one = seq![(label, value)];
    assert(one.drop_last() =~= none);
    assert(one.last() == (label, value));
    assert(addresses_html(none) =~= nothing);
    let open = "<div class=\"address-row\"><span class=\"address-label\">"@;
    let mid = "</span><span class=\"address-value\">"@;
    let shut = "</span></div>"@;
    let u = label + mid + value;
    assert(addresses_html(one) =~= open + u + shut);
    a_part_occurs(open, u, shut);
    if b.len() == 0 {
        assert(a + b =~= a);
        assert(b =~= none);
        assert(addresses_html(a) + nothing =~= addresses_html(a));
    } else {
        every_address_is_drawn(a, b.drop_last(), label, value);
        assert((a + b).drop_last() =~= a + b.drop_last());
        assert((a + b).last() == b.last());
        assert(addresses_html(a + b) =~= addresses_html(a) + addresses_html(b));
    }
}

/// A background picture is drawn whole.
pub proof fn a_background_is_drawn_whole(picture: Text)
    ensures
        has(background_css(Some(picture)), picture),
        background_css(None) == GRADIENT@,
{
    a_part_occurs(
        "background: url('data:image/jpeg;base64,"@,
        picture,
        "') no-repeat center center;"@,
    );
}

/// Whether a text holds no brace.
pub open spec fn without_braces(s: Text) -> bool {
    !s.contains('{') && !s.contains('}')
}

/// Before the first brace nothing is replaced that begins with one.
proof fn lemma_before_brace(s: Text, t: Text, p: Text, v: Text)
    requires
        p.len() > 0,
        !s.contains(p[0]),
    ensures
        replaced(s + t, p, v) == s + replaced(t, p, v),
    decreases s.len(),
{
    if s.len() == 0 {
        assert(s + t =~= t);
        assert(s + replaced(t, p, v) =~= replaced(t, p, v));
    } else {
        let rest = s.subrange(1, s.len() as int);
        let all = s + t;
        assert(!rest.contains(p[0])) by {
            if rest.contains(p[0]) {
                let k = choose|k: int| 0 <= k < rest.len() && rest[k] == p[0];
                assert(s[k + 1] == p[0]);
            }
        }
        lemma_before_brace(rest, t, p, v);
        assert(s.contains(s[0]));
        assert(!begins(all, p)) by {
            if begins(all, p) {
                assert(all.subrange(0, p.len() as int)[0] == all[0]);
            }
        }
        assert(all.subrange(1, all.len() as int) =~= rest + t);
        assert(replaced(all, p, v) =~= s + replaced(t, p, v));
    }
}

/// Where the mark stands it is replaced.
proof fn lemma_at_mark(t: Text, p: Text, v: Text)
    requires
        p.len() > 0,
    ensures
        replaced(p + t, p, v) == v + replaced(t, p, v),
{
    let all = p + t;
    assert(all.subrange(0, p.len() as int) =~= p);
    assert(all.subrange(p.len() as int, all.len() as int) =~= t);
}

/// Another mark is not replaced.
proof fn lemma_other_mark(q: Text, t: Text, p: Text, v: Text)
    requires
        p.len() > 0,
        q.len() > 0,
        !begins(q + t, p),
        !q.subrange(1, q.len() as int).contains(p[0]),
    ensures
        replaced(q + t, p, v) == q + replaced(t, p, v),
{
    let all = q + t;
    let rest = q.subrange(1, q.len() as int);
    assert(all.subrange(1, all.len() as int) =~= rest + t);
    lemma_before_brace(rest, t, p, v);
    assert(replaced(all, p, v) =~= q + replaced(t, p, v));
}

/// A text without a character stays where what begins with it is replaced.
proof fn lemma_untouched(s: Text, p: Text, v: Text)
    requires
        p.len() > 0,
        !s.contains(p[0]),
    ensures
        replaced(s, p, v) == s,
{
    let none = Seq::<char>::empty();
    lemma_before_brace(s, none, p, v);
    assert(s + none =~= s);
    assert(replaced(none, p, v) =~= none);
}

/// The four marks of a template.
proof fn lemma_marks()
    ensures
        "{background}"@.len() == 12,
        "{addresses}"@.len() == 11,
        "{routes}"@.len() == 8,
        "{servers}"@.len() == 9,
        "{background}"@[0] == '{',
        "{addresses}"@[0] == '{',
        "{routes}"@[0] == '{',
        "{servers}"@[0] == '{',
        "{background}"@[1] == 'b',
        "{addresses}"@[1] == 'a',
        "{routes}"@[1] == 'r',
        "{servers}"@[1] == 's',
        !"{addresses}"@.subrange(1, 11).contains('{'),
        !"{routes}"@.subrange(1, 8).contains('{'),
        !"{servers}"@.subrange(1, 9).contains('{'),
        "{{"@ == seq!['{', '{'],
        "}}"@ == seq!['}', '}'],
{
    reveal_strlit("{background}");
    reveal_strlit("{addresses}");
    reveal_strlit("{routes}");
    reveal_strlit("{servers}");
    reveal_strlit("{{");
    reveal_strlit("}}");
    assert("{{"@ =~= seq!['{', '{']);
    assert("}}"@ =~= seq!['}', '}']);
}

/// A template with its four marks in a row is filled with each text in its place, and
/// all that stands between them stays; no text is left out and none comes twice.
pub proof fn each_mark_is_filled_with_its_text(
    p: Seq<Text>,
    background: Text,
    addresses: Text,
    routes: Text,
    servers: Text,
)
    requires
        p.len() == 5,
        forall|i: int| 0 <= i < 5 ==> without_braces(#[trigger] p[i]),
        without_braces(background),
        without_braces(addresses),
        without_braces(routes),
        without_braces(servers),
    ensures
        filled(
            p[0] + "{background}"@ + p[1] + "{addresses}"@ + p[2] + "{routes}"@ + p[3]
                + "{servers}"@ + p[4],
            background,
            addresses,
            routes,
            servers,
        ) == p[0] + background + p[1] + addresses + p[2] + routes + p[3] + servers + p[4],
{
    lemma_marks();
    let bg = "{background}"@;
    let ad = "{addresses}"@;
    let ro = "{routes}"@;
    let se = "{servers}"@;
    assert(without_braces(p[0]) && without_braces(p[1]) && without_braces(p[2]) && without_braces(
        p[3],
    ) && without_braces(p[4]));
    let t4 = se + p[4];
    let t3 = ro + (p[3] + t4);
    let t2 = ad + (p[2] + t3);
    let template = p[0] + bg + p[1] + ad + p[2] + ro + p[3] + se + p[4];
    assert(template =~= p[0] + (bg + (p[1] + t2)));
    // the background
    lemma_tail_stays(bg, background, p[1], p[2], p[3], p[4]);
    lemma_before_brace(p[0], bg + (p[1] + t2), bg, background);
    lemma_at_mark(p[1] + t2, bg, background);
    let a = p[0] + background + p[1];
    assert(replaced(template, bg, background) =~= a + t2);
    // the addresses
    lemma_free_of_braces(p[0], background, p[1]);
    lemma_before_brace(a, t2, ad, addresses);
    lemma_at_mark(p[2] + t3, ad, addresses);
    lemma_two_marks_stay(ad, addresses, p[2], p[3], p[4]);
    let b = a + addresses + p[2];
    assert(replaced(a + t2, ad, addresses) =~= b + t3);
    // the routes
    lemma_free_of_braces(a, addresses, p[2]);
    lemma_before_brace(b, t3, ro, routes);
    lemma_at_mark(p[3] + t4, ro, routes);
    lemma_one_mark_stays(ro, routes, p[3], p[4]);
    let c = b + routes + p[3];
    assert(replaced(b + t3, ro, routes) =~= c + t4);
    // the servers
    lemma_free_of_braces(b, routes, p[3]);
    lemma_before_brace(c, t4, se, servers);
    lemma_at_mark(p[4], se, servers);
    lemma_untouched(p[4], se, servers);
    let d = c + servers + p[4];
    assert(replaced(c + t4, se, servers) =~= d);
    // the doubled braces
    lemma_free_of_braces(c, servers, p[4]);
    lemma_untouched(d, "{{"@, "{"@);
    lemma_untouched(d, "}}"@, "}"@);
    assert(d =~= p[0] + background + p[1] + addresses + p[2] + routes + p[3] + servers + p[4]);
}

/// Three texts without braces have none together.
proof fn lemma_free_of_braces(a: Text, b: Text, c: Text)
    requires
        without_braces(a),
        without_braces(b),
        without_braces(c),
    ensures
        without_braces(a + b + c),
{
    let s = a + b + c;
    assert forall|k: int| 0 <= k < s.len() implies s[k] != '{' && s[k] != '}' by {
        if k < a.len() {
            assert(a.contains(a[k]));
        } else if k < a.len() + b.len() {
            assert(b.contains(b[k - a.len()]));
        } else {
            assert(c.contains(c[k - a.len() - b.len()]));
        }
    }
}

/// Where the background is filled in, the marks behind it stay.
proof fn lemma_tail_stays(mark: Text, v: Text, p1: Text, p2: Text, p3: Text, p4: Text)
    requires
        mark == "{background}"@,
        without_braces(p1),
        without_braces(p2),
        without_braces(p3),
        without_braces(p4),
    ensures
        ({
            let t = "{addresses}"@ + (p2 + ("{routes}"@ + (p3 + ("{servers}"@ + p4))));
            replaced(p1 + t, mark, v) == p1 + t
        }),
{
    lemma_marks();
    let t4 = "{servers}"@ + p4;
    let t3 = "{routes}"@ + (p3 + t4);
    let t2 = "{addresses}"@ + (p2 + t3);
    lemma_two_marks_stay(mark, v, p2, p3, p4);
    lemma_no_match("{addresses}"@, p2 + t3, mark);
    lemma_other_mark("{addresses}"@, p2 + t3, mark, v);
    lemma_before_brace(p1, t2, mark, v);
}

/// Where a mark before them is filled in, the last two marks stay.
proof fn lemma_two_marks_stay(mark: Text, v: Text, p2: Text, p3: Text, p4: Text)
    requires
        mark == "{background}"@ || mark == "{addresses}"@,
        without_braces(p2),
        without_braces(p3),
        without_braces(p4),
    ensures
        ({
            let t = "{routes}"@ + (p3 + ("{servers}"@ + p4));
            replaced(p2 + t, mark, v) == p2 + t
        }),
{
    lemma_marks();
    let t4 = "{servers}"@ + p4;
    let t3 = "{routes}"@ + (p3 + t4);
    lemma_one_mark_stays(mark, v, p3, p4);
    lemma_no_match("{routes}"@, p3 + t4, mark);
    lemma_other_mark("{routes}"@, p3 + t4, mark, v);
    lemma_before_brace(p2, t3, mark, v);
}

/// Where a mark before it is filled in, the last mark stays.
proof fn lemma_one_mark_stays(mark: Text, v: Text, p3: Text, p4: Text)
    requires
        mark == "{background}"@ || mark == "{addresses}"@ || mark == "{routes}"@,
        without_braces(p3),
        without_braces(p4),
    ensures
        ({
            let t = "{servers}"@ + p4;
            replaced(p3 + t, mark, v) == p3 + t
        }),
{
    lemma_marks();
    let t4 = "{servers}"@ + p4;
    lemma_untouched(p4, mark, v);
    lemma_no_match("{servers}"@, p4, mark);
    lemma_other_mark("{servers}"@, p4, mark, v);
    lemma_before_brace(p3, t4, mark, v);
}

/// A mark is not taken for one that differs in its second character.
proof fn lemma_no_match(q: Text, t: Text, p: Text)
    requires
        q.len() > 1,
        p.len() > 1,
        q[1] != p[1],
    ensures
        !begins(q + t, p),
{
    let all = q + t;
    if begins(all, p) {
        assert(all.subrange(0, p.len() as int)[1] == all[1]);
        assert(all[1] == q[1]);
    }
}

/// The page is filled with the routes and the servers of the data, each in its place, and
/// with the addresses that are to be shown.
pub proof fn the_page_shows_the_data(
    p: Seq<Text>,
    data: JsonV,
    picture: Option<Text>,
    addresses: Option<Seq<(Text, Text)>>,
    routes: Seq<JsonV>,
    servers: Seq<JsonV>,
)
    requires
        p.len() == 5,
        forall|i: int| 0 <= i < 5 ==> without_braces(#[trigger] p[i]),
        data.field("network_routes"@) == Some(JsonV::Array(routes)),
        data.field("servers"@) == Some(JsonV::Array(servers)),
        without_braces(background_css(picture)),
        without_braces(addresses_html(shown_addresses(addresses))),
        without_braces(routes_html(routes)),
        without_braces(servers_html(servers)),
    ensures
        status_html(
            p[0] + "{background}"@ + p[1] + "{addresses}"@ + p[2] + "{routes}"@ + p[3]
                + "{servers}"@ + p[4],
            data,
            picture,
            addresses,
        ) == p[0] + background_css(picture) + p[1] + addresses_html(shown_addresses(addresses))
            + p[2] + routes_html(routes) + p[3] + servers_html(servers) + p[4],
{
    each_mark_is_filled_with_its_text(
        p,
        background_css(picture),
        addresses_html(shown_addresses(addresses)),
        routes_html(routes),
        servers_html(servers),
    );
}

/// A background is drawn from the picture as a smaller one of it, and not at all where
/// the picture cannot be read.
pub proof fn a_background_is_made_of_its_picture(picture: Seq<u8>)
    ensures
        (picture_jpeg(picture, 60) matches Some(j) ==> background_text(picture) == Some(
            base64_encoded(j),
        )),
        picture_jpeg(picture, 60) is None ==> background_text(picture) is None,
{
}

} // verus!
