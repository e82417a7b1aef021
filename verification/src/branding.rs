//! What the login page says of the servers behind the proxy, and how it looks.
use vstd::prelude::*;

use crate::models::Server;
use crate::text::{copy_text, join_texts, joined, texts};

verus! {

/// What the login page shows.
#[derive(Debug)]
pub struct BrandingConfig {
    pub login_disclaimer: String,
    pub custom_css: String,
    pub splashscreen_enabled: bool,
}

/// What a server says of its branding: nothing where it cannot be reached, else its style sheet
/// where it has one.
#[derive(Debug)]
pub enum BrandingAnswer {
    Unreachable,
    Branding(Option<String>),
}

/// The link to a server.
pub open spec fn server_link(server: Server) -> Seq<char> {
    "<a href=\""@ + server.url@ + "\" target=\"_blank\" rel=\"noopener noreferrer\">"@
        + server.name@ + "</a>"@
}

/// The links to the servers.
pub open spec fn server_links(servers: Seq<Server>) -> Seq<Seq<char>> {
    servers.map_values(|server: Server| server_link(server))
}

/// What the login page says of the servers.
pub open spec fn disclaimer(servers: Seq<Server>) -> Seq<char> {
    "Jellyswarrm proxying to the following servers: "@ + if servers.len() == 0 {
        "No servers configured."@
    } else {
        joined(server_links(servers), ", "@)
    }
}

/// The style sheet of the first server that could be reached; empty where it has none, or where
/// no server could be reached.
pub open spec fn css_of(answers: Seq<BrandingAnswer>) -> Seq<char>
    decreases answers.len(),
{
    if answers.len() == 0 {
        Seq::empty()
    } else {
        match answers[0] {
            BrandingAnswer::Branding(css) => match css {
                Some(text) => text@,
                None => Seq::empty(),
            },
            BrandingAnswer::Unreachable => css_of(answers.drop_first()),
        }
    }
}

fn write_disclaimer(servers: &Vec<Server>) -> (r: String)
    ensures
        r@ == disclaimer(servers@),
{
    let mut message: String = copy_text("Jellyswarrm proxying to the following servers: ");
    if servers.len() == 0 {
        message.append("No servers configured.");
        return message;
    }
    let mut links: Vec<String> = Vec::new();
    let ghost wanted = server_links(servers@);
    let mut i: usize = 0;
    assert(texts(links@) =~= wanted.take(0));
    while i < servers.len()
        invariant
            i <= servers@.len(),
            wanted == server_links(servers@),
            texts(links@) == wanted.take(i as int),
        decreases servers@.len() - i,
    {
        let ghost before = links@;
        let mut link: String = copy_text("<a href=\"");
        link.append(servers[i].url.as_str());
        link.append("\" target=\"_blank\" rel=\"noopener noreferrer\">");
        link.append(servers[i].name.as_str());
        link.append("</a>");
        assert(link@ == wanted[i as int]);
        links.push(link);
        assert(texts(links@) =~= texts(before).push(wanted[i as int]));
        assert(wanted.take(i + 1) =~= wanted.take(i as int).push(wanted[i as int]));
        i += 1;
    }
    assert(wanted.take(i as int) == wanted);
    let list: String = join_texts(&links, ", ");
    message.append(list.as_str());
    message
}

/// Whether the next server is asked for its branding after this answer.
pub fn asks_next_server(answer: &BrandingAnswer) -> (r: bool)
    ensures
        r == answer is Unreachable,
{
    match answer {
        BrandingAnswer::Unreachable => true,
        BrandingAnswer::Branding(_) => false,
    }
}

/// What the login page shows, given the servers by priority and the answers of those that were
/// asked, in that order.
pub fn handle_branding(servers: &Vec<Server>, answers: Vec<BrandingAnswer>) -> (r: BrandingConfig)
    ensures
        r.login_disclaimer@ == disclaimer(servers@),
        r.custom_css@ == css_of(answers@),
        !r.splashscreen_enabled,
{
    let ghost all = answers@;
    let login_disclaimer: String = write_disclaimer(servers);
    let mut custom_css: String = String::new();
    let mut settled: bool = false;
    let ghost mut done: int = 0;
    assert(all.skip(0) == all);
    for answer in it: answers
        invariant
            it.seq() == all,
            done == it.index(),
            settled ==> custom_css@ == css_of(all),
            !settled ==> custom_css@.len() == 0 && css_of(all) == css_of(all.skip(done)),
    {
        proof {
            assert(answer == all[done]);
            assert(all.skip(done).drop_first() == all.skip(done + 1));
            done = done + 1;
        }
        if !settled {
            if let BrandingAnswer::Branding(css) = answer {
                settled = true;
                if let Some(text) = css {
                    custom_css = text;
                } else {
                    assert(custom_css@ =~= css_of(all));
                }
            }
        }
    }
    proof {
        if !settled {
            assert(all.skip(done).len() == 0);
            assert(custom_css@ =~= css_of(all));
        }
    }
    BrandingConfig { login_disclaimer, custom_css, splashscreen_enabled: false }
}

/// The branding is that of the first server that can be reached: servers behind it do not matter,
/// and neither do servers that cannot be reached.
pub proof fn the_first_reachable_server_decides(
    unreachable: Seq<BrandingAnswer>,
    css: Option<String>,
    behind: Seq<BrandingAnswer>,
)
    requires
        forall|i: int| 0 <= i < unreachable.len() ==> #[trigger] unreachable[i] is Unreachable,
    ensures
        css_of(unreachable + seq![BrandingAnswer::Branding(css)] + behind) == match css {
            Some(text) => text@,
            None => Seq::empty(),
        },
    decreases unreachable.len(),
{
    let answers = unreachable + seq![BrandingAnswer::Branding(css)] + behind;
    if unreachable.len() > 0 {
        assert(answers[0] == unreachable[0]);
        let rest = unreachable.drop_first();
        assert forall|i: int| 0 <= i < rest.len() implies #[trigger] rest[i] is Unreachable by {
            assert(rest[i] == unreachable[i + 1]);
        }
        assert(answers.drop_first() =~= rest + seq![BrandingAnswer::Branding(css)] + behind);
        the_first_reachable_server_decides(rest, css, behind);
    } else {
        assert(answers[0] == BrandingAnswer::Branding(css));
    }
}

/// Where no server can be reached there is no style sheet.
pub proof fn no_style_sheet_comes_from_nowhere(answers: Seq<BrandingAnswer>)
    requires
        forall|i: int| 0 <= i < answers.len() ==> #[trigger] answers[i] is Unreachable,
    ensures
        css_of(answers).len() == 0,
    decreases answers.len(),
{
    if answers.len() > 0 {
        assert(answers[0] is Unreachable);
        let rest = answers.drop_first();
        assert forall|i: int| 0 <= i < rest.len() implies #[trigger] rest[i] is Unreachable by {
            assert(rest[i] == answers[i + 1]);
        }
        no_style_sheet_comes_from_nowhere(rest);
    }
}

/// The login page lists every server, in their order and with commas between them: each by its
/// name, as a link to its address that opens in a page of its own. Without any it says so.
pub proof fn every_server_is_listed(servers: Seq<Server>, i: int)
    ensures
        servers.len() == 0 ==> disclaimer(servers)
            == "Jellyswarrm proxying to the following servers: "@ + "No servers configured."@,
        servers.len() > 0 ==> disclaimer(servers)
            == "Jellyswarrm proxying to the following servers: "@ + joined(
            server_links(servers),
            seq![',', ' '],
        ),
        server_links(servers).len() == servers.len(),
        0 <= i < servers.len() ==> server_links(servers)[i] == "<a href=\""@ + servers[i].url@
            + "\" target=\"_blank\" rel=\"noopener noreferrer\">"@ + servers[i].name@ + "</a>"@,
{
    reveal_strlit(", ");
    assert(", "@ =~= seq![',', ' ']);
}

} // verus!
