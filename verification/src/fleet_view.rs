//! The fleet page the hypervisor serves: one card per radio (status,
//! uptime, restarts, a link to the radio's own page) inside a page that
//! refreshes itself from the fleet JSON.

use vstd::prelude::*;
use crate::fleet::{base_url_text, esc, fmt_uptime, html_escape, scheme_text, uptime_text, RadioSpec};
use crate::text::{append_str, chars_of, push_decimal, spec_decimal, string_from_chars};

verus! {

/// Start of a radio card, up to the class of its status dot.
pub const CARD_OPEN: &'static str = r#"<article class="card radio">
  <div class="rc-head">
    <span class="badge"><span class="dot "#;

/// Between the status dot and the radio label.
pub const CARD_BADGE: &'static str = r#""></span>"#;

/// Between the label and the link to the radio page.
pub const CARD_LINK: &'static str = r#"</span>
    <a class="btn" href=""#;

/// Between the link and the device name.
pub const CARD_DEVICE: &'static str = r#"">Open ↗</a>
  </div>
  <div class="rc-dev">"#;

/// Between the device name and the scheme chip.
pub const CARD_CHIPS: &'static str = r#"</div>
  <div class="chips">
    <span class="chip">"#;

/// Between the scheme and the control port.
pub const CARD_PORT: &'static str = r#" · :"#;

/// Between the port chip and the state chip.
pub const CARD_STATE: &'static str = r#"</span>
    <span class="chip">"#;

/// Between the state chip and the restart chip.
pub const CARD_RESTARTS: &'static str = r#"</span>
    "#;

/// End of a radio card.
pub const CARD_CLOSE: &'static str = r#"
  </div>
</article>"#;

/// Start of the fleet page, up to the host name in its title.
pub const PAGE_HEAD: &'static str = r##"<!doctype html><html lang="en"><head>
<meta charset="utf-8"><meta name="viewport" content="width=device-width, initial-scale=1">
<meta name="color-scheme" content="light dark">
<title>LANline fleet — "##;

/// From the title to the host name in the heading: the style sheet.
pub const PAGE_STYLE: &'static str = r##"</title>
<style>
:root {
  --bg:#f6f7f9; --card:#fff; --ink:#1a1c1f; --muted:#5c636e; --line:#e3e6ea;
  --accent:#2563eb; --ok:#15803d; --bad:#b91c1c; --warn:#b45309; --chip:#eef1f5;
}
@media (prefers-color-scheme: dark) {
  :root {
    --bg:#0f1216; --card:#171b21; --ink:#e8eaed; --muted:#9aa3af; --line:#262c34;
    --accent:#60a5fa; --ok:#4ade80; --bad:#f87171; --warn:#fbbf24; --chip:#222831;
  }
}
* { box-sizing:border-box; }
body { margin:0; background:var(--bg); color:var(--ink);
  font:14px/1.5 system-ui,-apple-system,"Segoe UI",Roboto,sans-serif; }
.wrap { max-width:820px; margin:0 auto; padding:24px 16px 48px; }
h1 { font-size:20px; margin:0 0 4px; letter-spacing:.2px; }
h1 .sub { color:var(--muted); font-weight:400; font-size:14px; }
.tagline { color:var(--muted); margin:0 0 20px; }
.card { background:var(--card); border:1px solid var(--line); border-radius:10px;
  padding:16px; margin-bottom:14px; }
.card.radio { transition:border-color .15s; }
.card.radio:hover { border-color:var(--accent); }
.rc-head { display:flex; align-items:center; justify-content:space-between; gap:12px; }
.badge { display:inline-flex; align-items:center; gap:8px; font-weight:700; font-size:18px; }
.dot { width:10px; height:10px; border-radius:50%; background:var(--muted); flex:none; }
.dot.ok { background:var(--ok); }
.dot.bad { background:var(--bad); }
.rc-dev { color:var(--muted); margin:8px 0 10px; font-variant-numeric:tabular-nums;
  word-break:break-word; }
.chips { display:flex; gap:6px; flex-wrap:wrap; }
.chip { background:var(--chip); border-radius:999px; padding:2px 10px; font-size:12px;
  color:var(--muted); font-variant-numeric:tabular-nums; }
.chip.warn { color:var(--warn); }
a.btn { padding:9px 16px; border:1px solid transparent; border-radius:8px;
  background:var(--accent); color:#fff; font-weight:600; text-decoration:none;
  white-space:nowrap; }
a.btn:hover { filter:brightness(1.06); }
.foot { color:var(--muted); font-size:13px; margin-top:8px; }
.foot a { color:var(--accent); }
</style></head><body><div class="wrap">
<h1>LANline <span class="sub">fleet · "##;

/// From the heading to the radio count.
pub const PAGE_TAGLINE: &'static str = r##"</span></h1>
<p class="tagline">"##;

/// Between the radio count and its noun.
pub const PAGE_COUNT_SEP: &'static str = r##" "##;

/// From the count to the list of radio cards.
pub const PAGE_LIST: &'static str = r##" on this host — pick one to open its radio page.</p>
<div id="fleet-list">"##;

/// After the cards: the JSON link and the script that refreshes the list.
pub const PAGE_FOOT: &'static str = r##"</div>
<p class="foot">JSON: <a href="/api/v1/fleet">/api/v1/fleet</a></p>
</div>
<script>
const FL = document.getElementById('fleet-list');
function fmtUp(s){ if(s<90)return s+'s'; if(s<5400)return Math.floor(s/60)+'m';
  return Math.floor(s/3600)+'h'+Math.floor((s%3600)/60)+'m'; }
function esc(s){ return String(s).replace(/[&<>"]/g,c=>({'&':'&amp;','<':'&lt;','>':'&gt;','"':'&quot;'}[c])); }
function card(r){
  const dot = r.running ? 'ok' : 'bad';
  const st = r.running ? 'running' : 'down';
  const up = r.started_at ? ' · '+fmtUp(Math.max(0, Math.floor(Date.now()/1000)-r.started_at)) : '';
  const rs = r.restarts > 0 ? `<span class="chip warn">&#8635; ${r.restarts}</span>` : '';
  return `<article class="card radio"><div class="rc-head">`
    + `<span class="badge"><span class="dot ${dot}"></span>${esc(r.label)}</span>`
    + `<a class="btn" href="${esc(r.c2_base_url)}/">Open &#8599;</a></div>`
    + `<div class="rc-dev">${esc(r.device||'')}</div>`
    + `<div class="chips"><span class="chip">${esc(r.scheme)} · :${r.ports.c2}</span>`
    + `<span class="chip">${st}${up}</span>${rs}</div></article>`;
}
async function tick(){
  try {
    const d = await (await fetch('/api/v1/fleet', {cache:'no-store'})).json();
    FL.innerHTML = d.radios.map(card).join('');
  } catch (e) { /* keep the last render */ }
}
setInterval(tick, 3000);
</script>
</body></html>"##;

/// Opening of the restart chip.
pub const CHIP_WARN_OPEN: &'static str = r#"<span class="chip warn">↻ "#;

/// Closing of the restart chip.
pub const CHIP_WARN_CLOSE: &'static str = "</span>";

/// The uptime shown on a card: since `started_at`, where the child is up.
pub open spec fn up_text(started_at: Option<u64>, now: u64) -> Seq<char> {
    match started_at {
        Some(t) => uptime_text(if now >= t { (now - t) as u64 } else { 0 }),
        None => Seq::empty(),
    }
}

/// The restart chip: shown once the child has been restarted.
pub open spec fn restart_chip(restarts: u32) -> Seq<char> {
    if restarts > 0 {
        CHIP_WARN_OPEN@ + spec_decimal(restarts as nat) + CHIP_WARN_CLOSE@
    } else {
        Seq::empty()
    }
}

/// The top of a card: status dot, label, link and device name.
pub open spec fn card_head(s: RadioSpec, host: Seq<char>, running: bool) -> Seq<char> {
    CARD_OPEN@ + (if running { "ok"@ } else { "bad"@ }) + CARD_BADGE@ + html_escape(s.label@)
        + CARD_LINK@ + base_url_text(s.tls, host, s.ports.c2) + "/"@
        + CARD_DEVICE@ + html_escape(s.device_label@)
}

/// The first chip of a card: scheme and control port.
pub open spec fn port_chip(s: RadioSpec) -> Seq<char> {
    CARD_CHIPS@ + scheme_text(s.tls) + CARD_PORT@ + spec_decimal(s.ports.c2 as nat)
}

/// The second chip of a card: state, and uptime where there is one.
pub open spec fn state_chip(running: bool, up: Seq<char>) -> Seq<char> {
    CARD_STATE@ + (if running { "running"@ } else { "down"@ }) + (if up.len() == 0 { Seq::empty() } else { " · "@ }) + up
}

/// The end of a card, with the restart chip.
pub open spec fn card_tail(restarts: u32) -> Seq<char> {
    CARD_RESTARTS@ + restart_chip(restarts) + CARD_CLOSE@
}

/// The chips of a card: scheme and port, state and uptime, restarts.
pub open spec fn card_chips(s: RadioSpec, running: bool, up: Seq<char>, restarts: u32) -> Seq<char> {
    port_chip(s) + state_chip(running, up) + card_tail(restarts)
}

/// The card of radio `s`, reached at `host`.
pub open spec fn card_text(s: RadioSpec, host: Seq<char>, running: bool, started_at: Option<u64>, now: u64, restarts: u32) -> Seq<char> {
    card_head(s, host, running) + card_chips(s, running, up_text(started_at, now), restarts)
}

/// The cards, one after another.
pub open spec fn concat_cards(cards: Seq<Seq<char>>) -> Seq<char>
    decreases cards.len(),
{
    if cards.len() == 0 {
        Seq::empty()
    } else {
        concat_cards(cards.drop_last()) + cards.last()
    }
}

/// The fleet page of host `host` with the given cards.
pub open spec fn page_text(host: Seq<char>, cards: Seq<Seq<char>>) -> Seq<char> {
    let h = html_escape(host);
    PAGE_HEAD@ + h + PAGE_STYLE@ + h + PAGE_TAGLINE@ + spec_decimal(cards.len()) + PAGE_COUNT_SEP@
        + (if cards.len() == 1 { "radio"@ } else { "radios"@ }) + PAGE_LIST@ + concat_cards(cards) + PAGE_FOOT@
}

fn push_scheme(v: &mut Vec<char>, tls: bool)
    ensures
        final(v)@ == old(v)@ + scheme_text(tls),
{
    v.push('h');
    v.push('t');
    v.push('t');
    v.push('p');
    if tls {
        v.push('s');
    }
    proof {
        assert(v@ =~= old(v)@ + scheme_text(tls));
    }
}

fn push_card_head(v: &mut Vec<char>, spec: &RadioSpec, host: &str, running: bool)
    ensures
        final(v)@ == old(v)@ + card_head(*spec, host@, running),
{
    append_str(v, CARD_OPEN);
    if running {
        append_str(v, "ok");
    } else {
        append_str(v, "bad");
    }
    append_str(v, CARD_BADGE);
    let label = esc(spec.label.as_str());
    append_str(v, label.as_str());
    append_str(v, CARD_LINK);
    let ghost before_url = v@;
    push_scheme(v, spec.tls);
    v.push(':');
    v.push('/');
    v.push('/');
    append_str(v, host);
    v.push(':');
    push_decimal(v, spec.ports.c2 as u64);
    proof {
        assert(v@ =~= before_url + base_url_text(spec.tls, host@, spec.ports.c2));
    }
    append_str(v, "/");
    append_str(v, CARD_DEVICE);
    let dev = esc(spec.device_label.as_str());
    append_str(v, dev.as_str());
    proof {
        assert(v@ =~= old(v)@ + card_head(*spec, host@, running));
    }
}

fn push_port_chip(v: &mut Vec<char>, spec: &RadioSpec)
    ensures
        final(v)@ == old(v)@ + port_chip(*spec),
{
    append_str(v, CARD_CHIPS);
    push_scheme(v, spec.tls);
    append_str(v, CARD_PORT);
    push_decimal(v, spec.ports.c2 as u64);
    proof {
        assert(v@ =~= old(v)@ + port_chip(*spec));
    }
}

fn push_state_chip(v: &mut Vec<char>, running: bool, up: &str)
    ensures
        final(v)@ == old(v)@ + state_chip(running, up@),
{
    append_str(v, CARD_STATE);
    if running {
        append_str(v, "running");
    } else {
        append_str(v, "down");
    }
    let up_chars = chars_of(up);
    if up_chars.len() > 0 {
        append_str(v, " · ");
    }
    append_str(v, up);
    proof {
        assert(v@ =~= old(v)@ + state_chip(running, up@));
    }
}

fn push_card_tail(v: &mut Vec<char>, restarts: u32)
    ensures
        final(v)@ == old(v)@ + card_tail(restarts),
{
    append_str(v, CARD_RESTARTS);
    let ghost before_chip = v@;
    if restarts > 0 {
        append_str(v, CHIP_WARN_OPEN);
        push_decimal(v, restarts as u64);
        append_str(v, CHIP_WARN_CLOSE);
    }
    proof {
        assert(v@ =~= before_chip + restart_chip(restarts));
    }
    append_str(v, CARD_CLOSE);
    proof {
        assert(v@ =~= old(v)@ + card_tail(restarts));
    }
}

fn push_card_chips(v: &mut Vec<char>, spec: &RadioSpec, running: bool, up: &str, restarts: u32)
    ensures
        final(v)@ == old(v)@ + card_chips(*spec, running, up@, restarts),
{
    push_port_chip(v, spec);
    push_state_chip(v, running, up);
    push_card_tail(v, restarts);
    proof {
        assert(v@ =~= old(v)@ + card_chips(*spec, running, up@, restarts));
    }
}

/// The card of one radio: `host` is the address it is announced at,
/// `started_at` the Unix second its child last started (if it is up) and
/// `now` the current one.
pub fn radio_card(spec: &RadioSpec, host: &str, running: bool, started_at: Option<u64>, now: u64, restarts: u32) -> (s: String)
    ensures
        s@ == card_text(*spec, host@, running, started_at, now, restarts),
{
    let mut v: Vec<char> = Vec::new();
    push_card_head(&mut v, spec, host, running);
    let up: String = match started_at {
        Some(t) => fmt_uptime(if now >= t { now - t } else { 0 }),
        None => String::new(),
    };
    push_card_chips(&mut v, spec, running, up.as_str(), restarts);
    proof {
        assert(v@ =~= card_text(*spec, host@, running, started_at, now, restarts));
    }
    string_from_chars(v.as_slice())
}

/// The fleet page of host `hostname`, listing the given radio cards.
pub fn fleet_page(hostname: &str, cards: &[String]) -> (s: String)
    ensures
        s@ == page_text(hostname@, cards@.map_values(|c: String| c@)),
{
    let ghost cs = cards@.map_values(|c: String| c@);
    let h = esc(hostname);
    let mut v: Vec<char> = Vec::new();
    append_str(&mut v, PAGE_HEAD);
    append_str(&mut v, h.as_str());
    append_str(&mut v, PAGE_STYLE);
    append_str(&mut v, h.as_str());
    append_str(&mut v, PAGE_TAGLINE);
    push_decimal(&mut v, cards.len() as u64);
    append_str(&mut v, PAGE_COUNT_SEP);
    if cards.len() == 1 {
        append_str(&mut v, "radio");
    } else {
        append_str(&mut v, "radios");
    }
    append_str(&mut v, PAGE_LIST);
    let ghost before = v@;
    let mut i: usize = 0;
    while i < cards.len()
        invariant
            i <= cards@.len(),
            cs == cards@.map_values(|c: String| c@),
            v@ == before + concat_cards(cs.take(i as int)),
        decreases cards.len() - i,
    {
        append_str(&mut v, cards[i].as_str());
        proof {
            assert(cs.take(i + 1).drop_last() =~= cs.take(i as int));
            assert(v@ =~= before + concat_cards(cs.take(i + 1)));
        }
        i = i + 1;
    }
    append_str(&mut v, PAGE_FOOT);
    proof {
        assert(cs.take(i as int) =~= cs);
        assert(v@ =~= page_text(hostname@, cs));
    }
    string_from_chars(v.as_slice())
}

} // verus!
