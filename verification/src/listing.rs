//! Directory listings: the order of entries, the links, and the two
//! renderings, JSON for the API and HTML for browsers.
use vstd::prelude::*;
use crate::text::{chars_of, string_of, push_str, push_all, starts_with, ends_with,
    starts_with_str, ends_with_exec, trim_end_char, trim_end_char_exec, chars_eq_str, copy};
use crate::decimal::{decimal, push_decimal};
use crate::escape::{json_escape, json_escape_spec, html_escape, html_escape_spec, js_escape,
    js_escape_spec};
use crate::percent::{percent_encode, percent_encode_spec};
use crate::mime::{entry_kind, file_icon, kind_of_extension, lower_extension, icon_of_kind};
use crate::request::{take_before, take_before_exec, query_param, query_param_spec};
use crate::sorting::{bytes_lt, bytes_lt_exec, stable_sort, insert_pos, strict_order, sorted_by,
    law_stable_sort_sorted_permutation, law_bytes_lt_strict_order};

verus! {

broadcast use vstd::string::group_string_axioms;

/// What a listing shows of one directory entry.
pub struct ListEntry {
    /// The file name, with ill-formed UTF-8 replaced.
    pub name: String,
    /// The file name's bytes as the file system gives them; entries are
    /// ordered by these.
    pub sort_key: Vec<u8>,
    /// Whether the entry is a plain file (an entry whose type cannot be read
    /// counts as one); files come after everything else.
    pub is_file: bool,
    /// Whether the entry is a directory.
    pub is_dir: bool,
    /// The entry's length in bytes.
    pub bytes: u64,
    /// The entry's modification time, in seconds since the Unix epoch.
    pub modified: u64,
    /// The entry's size as shown to people.
    pub size_text: String,
}

/// A directory entry as plain values.
pub struct ListEntryView {
    pub name: Seq<char>,
    pub sort_key: Seq<u8>,
    pub is_file: bool,
    pub is_dir: bool,
    pub bytes: u64,
    pub modified: u64,
    pub size_text: Seq<char>,
}

impl View for ListEntry {
    type V = ListEntryView;

    open spec fn view(&self) -> ListEntryView {
        ListEntryView {
            name: self.name@,
            sort_key: self.sort_key@,
            is_file: self.is_file,
            is_dir: self.is_dir,
            bytes: self.bytes,
            modified: self.modified,
            size_text: self.size_text@,
        }
    }
}

/// The views of a list of entries.
pub open spec fn entry_views(v: Seq<ListEntry>) -> Seq<ListEntryView> {
    v.map_values(|e: ListEntry| e@)
}

/// Listing order: everything that is not a plain file first, then by the
/// bytes of the name.
pub open spec fn entry_lt(a: ListEntryView, b: ListEntryView) -> bool {
    (!a.is_file && b.is_file) || (a.is_file == b.is_file && bytes_lt(a.sort_key, b.sort_key))
}

/// `entry_lt` as a value.
pub open spec fn entry_order() -> spec_fn(ListEntryView, ListEntryView) -> bool {
    |a: ListEntryView, b: ListEntryView| entry_lt(a, b)
}

fn entry_lt_exec(a: &ListEntry, b: &ListEntry) -> (r: bool)
    ensures
        r == entry_lt(a@, b@),
{
    if a.is_file != b.is_file {
        !a.is_file
    } else {
        bytes_lt_exec(&a.sort_key, &b.sort_key)
    }
}

/// Puts entries in listing order; entries that compare equal keep their order.
pub fn sort_entries(entries: Vec<ListEntry>) -> (r: Vec<ListEntry>)
    ensures
        entry_views(r@) == stable_sort(entry_views(entries@), entry_order()),
{
    let ghost ins = entry_views(entries@);
    let mut rest = entries;
    let mut out: Vec<ListEntry> = Vec::new();
    let mut i: usize = 0;
    let n = rest.len();
    assert(ins.take(0) =~= Seq::<ListEntryView>::empty());
    while rest.len() > 0
        invariant
            i + rest.len() == n,
            n == ins.len(),
            entry_views(rest@) == ins.skip(i as int),
            entry_views(out@) == stable_sort(ins.take(i as int), entry_order()),
        decreases rest.len(),
    {
        let ghost old_rest = rest@;
        assert(entry_views(old_rest)[0] == old_rest[0]@);
        let x = rest.remove(0);
        assert forall|j: int| 0 <= j < rest@.len() implies #[trigger] entry_views(rest@)[j]
            == ins.skip(i + 1)[j] by {
            assert(rest@[j] == old_rest[j + 1]);
            assert(entry_views(old_rest)[j + 1] == ins.skip(i as int)[j + 1]);
        }
        assert(entry_views(rest@) =~= ins.skip(i + 1));
        let ghost xs = x@;
        let ghost sorted = entry_views(out@);
        let mut p: usize = 0;
        while p < out.len() && !entry_lt_exec(&x, &out[p])
            invariant
                p <= out.len(),
                sorted == entry_views(out@),
                xs == x@,
                insert_pos(sorted, xs, entry_order(), 0) == insert_pos(
                    sorted,
                    xs,
                    entry_order(),
                    p as int,
                ),
            decreases out.len() - p,
        {
            assert(sorted[p as int] == out@[p as int]@);
            p += 1;
        }
        proof {
            if p < out.len() {
                assert(sorted[p as int] == out@[p as int]@);
            }
        }
        out.insert(p, x);
        proof {
            assert(ins.take(i + 1).drop_last() =~= ins.take(i as int));
            assert(ins.take(i + 1).last() == xs);
            assert(entry_views(out@) =~= sorted.take(p as int).push(xs) + sorted.skip(p as int));
        }
        i += 1;
    }
    assert(ins.take(n as int) =~= ins);
    out
}

/// The folder part of a listing's address, between slashes: the text before
/// any `?`, with `/` put in front and at the end where missing.
pub open spec fn listing_base(target: Seq<char>) -> Seq<char> {
    let b = take_before(target, '?');
    let b1 = if starts_with(b, "/"@) {
        b
    } else {
        seq!['/'] + b
    };
    if ends_with(b1, "/"@) {
        b1
    } else {
        b1.push('/')
    }
}

/// The folder shown for a base: `/`, or the base without its trailing slashes.
pub open spec fn listing_current(base: Seq<char>) -> Seq<char> {
    if base == "/"@ {
        "/"@
    } else {
        trim_end_char(base, '/')
    }
}

fn listing_base_exec(target: &str) -> (r: Vec<char>)
    ensures
        r@ == listing_base(target@),
{
    let t = chars_of(target);
    let b = take_before_exec(&t, '?');
    let mut b1: Vec<char> = Vec::new();
    if !starts_with_str(&b, "/") {
        b1.push('/');
    }
    push_all(&mut b1, &b);
    let slash = chars_of("/");
    if !ends_with_exec(&b1, &slash) {
        b1.push('/');
    }
    b1
}

fn listing_current_exec(base: &Vec<char>) -> (r: Vec<char>)
    ensures
        r@ == listing_current(base@),
{
    if chars_eq_str(base, "/") {
        chars_of("/")
    } else {
        trim_end_char_exec(base, '/')
    }
}

/// The link of an entry: the base, the percent-encoded name, and `/` for a
/// directory.
pub open spec fn entry_href(base: Seq<char>, e: ListEntryView) -> Seq<char> {
    base + percent_encode_spec(e.name) + if e.is_dir {
        "/"@
    } else {
        Seq::empty()
    }
}

/// The kind of an entry (see `entry_kind`).
pub open spec fn entry_kind_of(e: ListEntryView) -> Seq<char> {
    if e.is_dir {
        "dir"@
    } else {
        kind_of_extension(lower_extension(e.name))
    }
}

fn entry_href_exec(base: &Vec<char>, e: &ListEntry) -> (r: Vec<char>)
    ensures
        r@ == entry_href(base@, e@),
{
    let mut h = copy(base);
    push_str(&mut h, percent_encode(e.name.as_str()).as_str());
    if e.is_dir {
        h.push('/');
    }
    proof {
        reveal_strlit("/");
    }
    assert(h@ =~= entry_href(base@, e@));
    h
}

/// The JSON object of one entry in an API listing.
pub open spec fn entry_json(base: Seq<char>, e: ListEntryView) -> Seq<char> {
    "{\"name\":\""@ + json_escape_spec(e.name) + "\",\"url\":\""@ + json_escape_spec(
        entry_href(base, e),
    ) + "\",\"kind\":\""@ + entry_kind_of(e) + "\",\"bytes\":"@ + decimal(e.bytes as nat)
        + ",\"modified\":"@ + decimal(e.modified as nat) + "}"@
}

/// The JSON objects of entries, joined by commas.
pub open spec fn entries_json(base: Seq<char>, es: Seq<ListEntryView>) -> Seq<char>
    decreases es.len(),
{
    if es.len() == 0 {
        Seq::empty()
    } else if es.len() == 1 {
        entry_json(base, es[0])
    } else {
        entries_json(base, es.drop_last()) + ","@ + entry_json(base, es.last())
    }
}

/// The JSON body of an API listing of the folder at `request_path`: the folder
/// shown, then its entries in listing order.
pub open spec fn api_list_body_spec(request_path: Seq<char>, es: Seq<ListEntryView>) -> Seq<char> {
    let base = listing_base(request_path);
    "{\"path\":\""@ + json_escape_spec(listing_current(base)) + "\",\"entries\":["@
        + entries_json(base, stable_sort(es, entry_order())) + "]}"@
}

/// The folder that an API listing request asks for: its `path` query
/// parameter (default `/`), with `/` put in front where missing.
pub open spec fn api_list_path_spec(target: Seq<char>) -> Seq<char> {
    let q = match query_param_spec(target, "path"@) {
        Some(p) => p,
        None => "/"@,
    };
    if starts_with(q, "/"@) {
        q
    } else {
        seq!['/'] + q
    }
}

/// The folder that an API listing request asks for.
pub fn api_list_path(target: &str) -> (r: String)
    ensures
        r@ == api_list_path_spec(target@),
{
    let q = match query_param(target, "path") {
        Some(p) => p,
        None => "/".to_owned(),
    };
    let qc = chars_of(q.as_str());
    if starts_with_str(&qc, "/") {
        q
    } else {
        let mut v: Vec<char> = Vec::new();
        v.push('/');
        push_all(&mut v, &qc);
        string_of(&v)
    }
}

fn push_entry_json(out: &mut Vec<char>, base: &Vec<char>, e: &ListEntry)
    ensures
        final(out)@ == old(out)@ + entry_json(base@, e@),
{
    let href = entry_href_exec(base, e);
    let href_s = string_of(&href);
    push_str(out, "{\"name\":\"");
    push_str(out, json_escape(e.name.as_str()).as_str());
    push_str(out, "\",\"url\":\"");
    push_str(out, json_escape(href_s.as_str()).as_str());
    push_str(out, "\",\"kind\":\"");
    push_str(out, entry_kind(e.name.as_str(), e.is_dir));
    push_str(out, "\",\"bytes\":");
    push_decimal(out, e.bytes);
    push_str(out, ",\"modified\":");
    push_decimal(out, e.modified);
    push_str(out, "}");
}

/// The JSON body of an API listing of the folder at `request_path`.
pub fn api_list_body(request_path: &str, entries: Vec<ListEntry>) -> (r: String)
    ensures
        r@ == api_list_body_spec(request_path@, entry_views(entries@)),
{
    let base = listing_base_exec(request_path);
    let current = listing_current_exec(&base);
    let current_s = string_of(&current);
    let sorted = sort_entries(entries);
    let ghost es = entry_views(sorted@);
    let mut out: Vec<char> = Vec::new();
    push_str(&mut out, "{\"path\":\"");
    push_str(&mut out, json_escape(current_s.as_str()).as_str());
    push_str(&mut out, "\",\"entries\":[");
    let ghost head = out@;
    let mut i: usize = 0;
    while i < sorted.len()
        invariant
            i <= sorted.len(),
            es == entry_views(sorted@),
            out@ == head + entries_json(base@, es.take(i as int)),
        decreases sorted.len() - i,
    {
        assert(es.take(i + 1).drop_last() =~= es.take(i as int));
        assert(es.take(i + 1).last() == sorted@[i as int]@);
        if i > 0 {
            push_str(&mut out, ",");
        } else {
            assert(es.take(1) =~= seq![es[0]]);
        }
        push_entry_json(&mut out, &base, &sorted[i]);
        i += 1;
    }
    assert(es.take(sorted.len() as int) =~= es);
    push_str(&mut out, "]}");
    string_of(&out)
}

/// The start of an HTML listing, up to the folder shown.
pub const LISTING_HEAD: &'static str = r#"<!doctype html><html lang="zh-CN"><head><meta charset="utf-8"><meta name="viewport" content="width=device-width,initial-scale=1"><title>StaticDock resources</title><style>
:root{--blue:#1e40af;--pink:#be185d;--ink:#111827;--muted:#64748b;--line:rgba(148,163,184,.28);--card:rgba(255,255,255,.9)}*{box-sizing:border-box}body{margin:0;font-family:"Microsoft YaHei UI",Segoe UI,system-ui,sans-serif;color:var(--ink);background:radial-gradient(circle at 8% 15%,rgba(225,29,114,.12),transparent 28%),radial-gradient(circle at 90% 8%,rgba(6,182,212,.14),transparent 30%),linear-gradient(145deg,#fff 0%,#f8fafc 44%,#fff1f5 100%)}main{width:min(1120px,calc(100% - 42px));margin:0 auto;padding:26px 0 44px}.hero{border-radius:32px;padding:34px;background:linear-gradient(135deg,rgba(255,255,255,.92),rgba(255,255,255,.68));box-shadow:0 24px 60px rgba(15,23,42,.12);border:1px solid rgba(255,255,255,.72)}.eyebrow{color:var(--pink);font-weight:900;letter-spacing:.12em;text-transform:uppercase;font-size:12px}h1{margin:10px 0 8px;font-size:38px;letter-spacing:-1.4px}.path{font-family:Consolas,monospace;color:var(--muted);overflow:hidden;text-overflow:ellipsis;white-space:nowrap}.actions{display:flex;gap:10px;flex-wrap:wrap;margin-top:18px}.btn,button{border:0;border-radius:999px;background:var(--blue);color:#fff;padding:10px 15px;text-decoration:none;font-weight:800;cursor:pointer}.ghost{background:#fff;color:var(--ink);border:1px solid var(--line)}.grid{margin-top:20px;display:grid;grid-template-columns:repeat(auto-fill,minmax(210px,1fr));gap:16px}.item{border:1px solid var(--line);border-radius:24px;background:var(--card);overflow:hidden;box-shadow:0 12px 34px rgba(15,23,42,.07)}.thumb{height:132px;display:grid;place-items:center;font-size:42px;text-decoration:none;background:linear-gradient(135deg,#e0f2fe,#fce7f3);overflow:hidden}.thumb img,.thumb video{width:100%;height:100%;object-fit:cover}.file-icon{width:74px;height:74px;border-radius:24px;display:grid;place-items:center;font-size:34px;background:rgba(255,255,255,.72);box-shadow:inset 0 0 0 1px rgba(255,255,255,.8),0 12px 28px rgba(15,23,42,.08)}.archive{background:#fef3c7}.app{background:#dbeafe}.doc{background:#e0e7ff}.pdf{background:#fee2e2}.audio{background:#dcfce7}.code{background:#e0f2fe}.json{background:#f3e8ff}.meta{padding:12px}.name{font-weight:900;overflow:hidden;text-overflow:ellipsis;white-space:nowrap}.info-row{margin-top:8px;display:flex;align-items:center;justify-content:space-between;gap:8px}.kind-badge{max-width:58%;overflow:hidden;text-overflow:ellipsis;white-space:nowrap;border-radius:999px;padding:4px 8px;background:#f1f5f9;color:#475569;font-size:11px;font-weight:800}.size{color:var(--muted);font-size:12px;white-space:nowrap}.empty{margin-top:20px;border-radius:22px;background:#fff;padding:24px;color:var(--muted)}.ctx{position:fixed;z-index:20;display:none;min-width:150px;padding:8px;border:1px solid var(--line);border-radius:16px;background:white;box-shadow:0 20px 50px rgba(15,23,42,.2)}.ctx.open{display:block}.ctx button{display:block;width:100%;text-align:left;background:white;color:var(--ink);box-shadow:none;border-radius:10px;padding:9px 11px}.modal{position:fixed;inset:0;background:rgba(15,23,42,.42);display:none;align-items:center;justify-content:center;padding:22px;z-index:30;backdrop-filter:blur(8px)}.modal.open{display:flex}.modal-card{width:min(920px,100%);max-height:min(86vh,820px);overflow:auto;background:white;border-radius:28px;padding:24px;box-shadow:0 30px 80px rgba(15,23,42,.25);position:relative}.modal-close{position:absolute;right:14px;top:14px;width:34px;height:34px;padding:0}.preview-body{display:grid;place-items:center;min-height:220px;border-radius:22px;background:#f8fafc;border:1px solid var(--line);overflow:hidden}.preview-body img,.preview-body video,.preview-body iframe{max-width:100%;width:100%;height:68vh;max-height:68vh;object-fit:contain;border:0;background:#fff}.preview-body audio{width:min(680px,100%);margin:42px}.preview-body pre{width:100%;max-height:68vh;margin:0;overflow:auto;padding:18px;font:13px/1.55 Consolas,monospace;white-space:pre-wrap}@media(max-width:640px){main{width:min(100% - 28px,1120px)}h1{font-size:30px}.grid{grid-template-columns:1fr}}</style></head><body><main><section class="hero"><div class="eyebrow">StaticDock Directory</div><h1>资源目录</h1><div class="path">"#;

/// The part of an HTML listing between the folder shown and the entries.
pub const LISTING_ACTIONS: &'static str = r#"</div><div class="actions"><a class="btn ghost" href="/">资源首页</a><button onclick="navigator.clipboard&&navigator.clipboard.writeText(location.href)">复制当前地址</button></div></section>"#;

/// What an HTML listing of an empty folder shows in place of entries.
pub const LISTING_EMPTY: &'static str = "<div class=\"empty\">这个目录是空的。</div>";

/// The end of an HTML listing: the context menu, the preview dialog and
/// their script.
pub const LISTING_TAIL: &'static str = r#"<div class="ctx" id="ctx"><button onclick="previewCtx()">预览/播放</button><button onclick="openCtx()">打开</button><button onclick="openNewCtx()">新标签打开</button><button onclick="downloadCtx()">下载</button><button onclick="copyCtx()">复制 URL</button></div><div class="modal" id="previewModal" onclick="if(event.target===this)closePreview()"><div class="modal-card"><button class="ghost modal-close" onclick="closePreview()">×</button><h2 id="previewTitle">Preview</h2><div class="preview-body" id="previewBody"></div></div></div><script>let ctx='',ctxKind='file',ctxName='',ctxIsDir=false;function showCtx(e,u,k,n,d){e.preventDefault();ctx=u;ctxKind=k;ctxName=n||u;ctxIsDir=d;const m=document.getElementById('ctx');m.style.left=Math.min(e.clientX,innerWidth-170)+'px';m.style.top=Math.min(e.clientY,innerHeight-100)+'px';m.classList.add('open')}function hideCtx(){document.getElementById('ctx').classList.remove('open')}function previewCtx(){hideCtx();if(ctxIsDir)location.href=ctx;else previewFile(ctx,ctxKind,ctxName)}function openCtx(){hideCtx();if(ctxIsDir)location.href=ctx;else previewFile(ctx,ctxKind,ctxName)}function openNewCtx(){hideCtx();window.open(ctx,'_blank','noopener')}function downloadCtx(){hideCtx();const a=document.createElement('a');a.href=ctx;a.download=ctxName||'';document.body.appendChild(a);a.click();a.remove()}function copyCtx(){hideCtx();navigator.clipboard&&navigator.clipboard.writeText(location.origin+ctx)}function esc(s){return(s||'').replace(/[&<>"]/g,c=>({'&':'&amp;','<':'&lt;','>':'&gt;','"':'&quot;'}[c]))}async function previewFile(url,kind,name){const modal=document.getElementById('previewModal'),body=document.getElementById('previewBody');document.getElementById('previewTitle').textContent=name||url;body.innerHTML='加载中...';modal.classList.add('open');if(kind==='image')body.innerHTML='<img src="'+esc(url)+'">';else if(kind==='video')body.innerHTML='<video src="'+esc(url)+'" controls preload="metadata" playsinline></video><div class="preview-help" style="padding:12px 18px;color:#64748b;text-align:center">浏览器若不支持该视频编码，可用右键菜单新标签打开或下载。</div>';else if(kind==='audio')body.innerHTML='<audio src="'+esc(url)+'" controls preload="metadata"></audio>';else if(kind==='pdf')body.innerHTML='<iframe src="'+esc(url)+'"></iframe><div class="preview-help" style="padding:12px 18px;color:#64748b;text-align:center">PDF 未显示时，可用右键菜单新标签打开或下载。</div>';else if(['json','code','html','file'].includes(kind)){try{const r=await fetch(url);const txt=await r.text();body.innerHTML='<pre>'+esc(txt.slice(0,200000))+(txt.length>200000?'\n...':'')+'</pre>'}catch(e){location.href=url}}else body.innerHTML='<div style="padding:24px;text-align:center"><p>此类型不支持直接预览。</p><p><a class="btn" href="'+esc(url)+'" target="_blank">新标签打开</a> <a class="btn ghost" href="'+esc(url)+'" download>下载</a></p></div>'}function closePreview(){document.getElementById('previewModal').classList.remove('open');document.getElementById('previewBody').innerHTML=''}document.addEventListener('click',hideCtx);document.addEventListener('keydown',e=>{if(e.key==='Escape'){hideCtx();closePreview()}});</script></main></body></html>"#;

/// The picture part of an entry's card: the image itself, a muted video, or
/// the icon of its kind.
pub open spec fn entry_thumb(href_html: Seq<char>, kind: Seq<char>) -> Seq<char> {
    if kind == "image"@ {
        "<img loading=\"lazy\" src=\""@ + href_html + "\">"@
    } else if kind == "video"@ {
        "<video muted preload=\"metadata\" src=\""@ + href_html + "#t=0.1\"></video>"@
    } else {
        "<span class=\"file-icon "@ + kind + "\">"@ + icon_of_kind(kind) + "</span>"@
    }
}

/// The name shown for an entry: a directory's ends with `/`.
pub open spec fn display_name(e: ListEntryView) -> Seq<char> {
    if e.is_dir {
        e.name + "/"@
    } else {
        e.name
    }
}

/// The card of one entry in an HTML listing.
pub open spec fn entry_card(base: Seq<char>, e: ListEntryView) -> Seq<char> {
    let href = entry_href(base, e);
    let kind = entry_kind_of(e);
    "<article class=\"item\" oncontextmenu=\"showCtx(event,'"@ + js_escape_spec(href)
        + "')\"><a class=\"thumb\" href=\""@ + html_escape_spec(href) + "\">"@ + entry_thumb(
        html_escape_spec(href),
        kind,
    ) + "</a><div class=\"meta\"><div class=\"name\">"@ + html_escape_spec(display_name(e))
        + "</div><div class=\"sub\">"@ + kind + " · "@ + e.size_text + "</div></div></article>"@
}

/// The cards of entries, in order.
pub open spec fn entry_cards(base: Seq<char>, es: Seq<ListEntryView>) -> Seq<char>
    decreases es.len(),
{
    if es.len() == 0 {
        Seq::empty()
    } else {
        entry_cards(base, es.drop_last()) + entry_card(base, es.last())
    }
}

/// The HTML listing of a folder reached at `target`: the folder shown, then
/// its entries in listing order as cards, or a note that it is empty.
pub open spec fn directory_listing_spec(target: Seq<char>, es: Seq<ListEntryView>) -> Seq<char> {
    let base = listing_base(target);
    LISTING_HEAD@ + html_escape_spec(listing_current(base)) + LISTING_ACTIONS@ + if es.len()
        == 0 {
        LISTING_EMPTY@
    } else {
        "<section class=\"grid\">"@ + entry_cards(base, stable_sort(es, entry_order()))
            + "</section>"@
    } + LISTING_TAIL@
}

fn push_entry_thumb(out: &mut Vec<char>, href_html: &String, kind: &str)
    ensures
        final(out)@ == old(out)@ + entry_thumb(href_html@, kind@),
{
    let kc = chars_of(kind);
    if chars_eq_str(&kc, "image") {
        push_str(out, "<img loading=\"lazy\" src=\"");
        push_str(out, href_html.as_str());
        push_str(out, "\">");
    } else if chars_eq_str(&kc, "video") {
        push_str(out, "<video muted preload=\"metadata\" src=\"");
        push_str(out, href_html.as_str());
        push_str(out, "#t=0.1\"></video>");
    } else {
        push_str(out, "<span class=\"file-icon ");
        push_str(out, kind);
        push_str(out, "\">");
        push_str(out, file_icon(kind));
        push_str(out, "</span>");
    }
}

fn push_entry_card(out: &mut Vec<char>, base: &Vec<char>, e: &ListEntry)
    ensures
        final(out)@ == old(out)@ + entry_card(base@, e@),
{
    let href = entry_href_exec(base, e);
    let href_s = string_of(&href);
    let href_html = html_escape(href_s.as_str());
    let kind = entry_kind(e.name.as_str(), e.is_dir);
    push_str(out, "<article class=\"item\" oncontextmenu=\"showCtx(event,'");
    push_str(out, js_escape(href_s.as_str()).as_str());
    push_str(out, "')\"><a class=\"thumb\" href=\"");
    push_str(out, href_html.as_str());
    push_str(out, "\">");
    push_entry_thumb(out, &href_html, kind);
    let mut shown: Vec<char> = chars_of(e.name.as_str());
    if e.is_dir {
        shown.push('/');
    }
    proof {
        reveal_strlit("/");
    }
    assert(shown@ =~= display_name(e@));
    let shown_s = string_of(&shown);
    push_str(out, "</a><div class=\"meta\"><div class=\"name\">");
    push_str(out, html_escape(shown_s.as_str()).as_str());
    push_str(out, "</div><div class=\"sub\">");
    push_str(out, kind);
    push_str(out, " · ");
    push_str(out, e.size_text.as_str());
    push_str(out, "</div></div></article>");
}

/// The HTML listing of a folder reached at `target`.
pub fn directory_listing(target: &str, entries: Vec<ListEntry>) -> (r: String)
    ensures
        r@ == directory_listing_spec(target@, entry_views(entries@)),
{
    let base = listing_base_exec(target);
    let current = listing_current_exec(&base);
    let current_s = string_of(&current);
    let n = entries.len();
    let sorted = sort_entries(entries);
    let ghost es = entry_views(sorted@);
    let mut out: Vec<char> = Vec::new();
    push_str(&mut out, LISTING_HEAD);
    push_str(&mut out, html_escape(current_s.as_str()).as_str());
    push_str(&mut out, LISTING_ACTIONS);
    if n == 0 {
        push_str(&mut out, LISTING_EMPTY);
    } else {
        push_str(&mut out, "<section class=\"grid\">");
        let ghost head = out@;
        let mut i: usize = 0;
        while i < sorted.len()
            invariant
                i <= sorted.len(),
                es == entry_views(sorted@),
                out@ == head + entry_cards(base@, es.take(i as int)),
            decreases sorted.len() - i,
        {
            assert(es.take(i + 1).drop_last() =~= es.take(i as int));
            assert(es.take(i + 1).last() == sorted@[i as int]@);
            push_entry_card(&mut out, &base, &sorted[i]);
            i += 1;
        }
        assert(es.take(sorted.len() as int) =~= es);
        push_str(&mut out, "</section>");
    }
    push_str(&mut out, LISTING_TAIL);
    string_of(&out)
}

/// The listing order is a strict order.
pub proof fn lemma_entry_order_strict()
    ensures
        strict_order(entry_order()),
{
    law_bytes_lt_strict_order();
    let blt = |a: Seq<u8>, b: Seq<u8>| bytes_lt(a, b);
    let lt = entry_order();
    assert forall|a: ListEntryView| !(#[trigger] lt(a, a)) by {
        assert(!blt(a.sort_key, a.sort_key));
    }
    assert forall|a: ListEntryView, b: ListEntryView, c: ListEntryView| #[trigger] lt(a, b)
        && #[trigger] lt(b, c) implies lt(a, c) by {
        if a.is_file == b.is_file && b.is_file == c.is_file {
            assert(blt(a.sort_key, b.sort_key) && blt(b.sort_key, c.sort_key));
        }
    }
}

/// A listing shows every entry exactly as often as the folder holds it,
/// everything that is not a plain file before the plain files, and each group
/// by the bytes of the names.
pub proof fn law_listing_order(es: Seq<ListEntryView>)
    ensures
        sorted_by(stable_sort(es, entry_order()), entry_order()),
        stable_sort(es, entry_order()).to_multiset() == es.to_multiset(),
        forall|i: int, j: int|
            0 <= i < j < es.len() && #[trigger] stable_sort(es, entry_order())[i].is_file
                ==> #[trigger] stable_sort(es, entry_order())[j].is_file,
{
    lemma_entry_order_strict();
    law_stable_sort_sorted_permutation(es, entry_order());
    let r = stable_sort(es, entry_order());
    assert forall|i: int, j: int| 0 <= i < j < es.len() && #[trigger] r[i].is_file implies #[trigger] r[j].is_file by {
        assert(r.len() == es.len()) by {
            r.to_multiset_ensures();
            es.to_multiset_ensures();
        }
        assert(!(entry_order())(r[j], r[i]));
    }
}

} // verus!
