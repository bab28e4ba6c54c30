//! Containers as the dashboard lists them: which ones a user may see, how the panel's
//! own records (database id, display name, owner) are attached, and which are running.
use vstd::prelude::*;
use crate::text;

verus! {

/// A container as the panel shows it.
#[derive(Debug, Clone)]
pub struct ContainerInfo {
    pub id: String,
    pub short_id: String,
    pub name: String,
    pub status: String,
    pub state: String,
    pub cpu_usage: String,
    pub ram_usage: String,
    /// Internal database id; 0 until resolved from the database.
    pub db_id: i64,
    /// Owner label; empty until resolved from the database.
    pub owner: String,
}

/// The panel's record of a server: container id, database id, display name and owner
/// label.
pub struct ServerInfoRow {
    pub container_id: String,
    pub db_id: i64,
    pub name: String,
    pub owner: String,
}

/// A stored container id refers to the container `cid`: one is a prefix of the other
/// (ids may be stored in short or full form).
pub open spec fn ids_match(stored: Seq<char>, cid: Seq<char>) -> bool {
    text::has_prefix(stored, cid) || text::has_prefix(cid, stored)
}

/// The container `cid` is among the `allowed` stored ids.
pub open spec fn spec_container_visible(cid: Seq<char>, allowed: Seq<Seq<char>>) -> bool {
    exists|i: int| 0 <= i < allowed.len() && ids_match(allowed[i], cid)
}

/// Whether the container `cid` is among the `allowed` stored ids.
pub fn container_visible(cid: &str, allowed: &Vec<String>) -> (r: bool)
    ensures
        r == spec_container_visible(cid@, text::string_views(allowed@)),
{
    let c = text::chars_of(cid);
    let mut i: usize = 0;
    while i < allowed.len()
        invariant
            c@ == cid@,
            i <= allowed@.len(),
            forall|j: int| 0 <= j < i ==> !ids_match(#[trigger] text::string_views(allowed@)[j], cid@),
        decreases allowed@.len() - i,
    {
        let a = text::chars_of(allowed[i].as_str());
        assert(text::string_views(allowed@)[i as int] == a@);
        if text::starts_with(&a, &c) || text::starts_with(&c, &a) {
            return true;
        }
        i = i + 1;
    }
    false
}

/// The containers of `cs` whose ids are among `allowed`, in order.
pub open spec fn filter_visible(cs: Seq<ContainerInfo>, allowed: Seq<Seq<char>>) -> Seq<ContainerInfo>
    decreases cs.len(),
{
    if cs.len() == 0 {
        seq![]
    } else if spec_container_visible(cs.last().id@, allowed) {
        filter_visible(cs.drop_last(), allowed).push(cs.last())
    } else {
        filter_visible(cs.drop_last(), allowed)
    }
}

/// The containers a user sees: an administrator all of them; a user with a session
/// those whose ids are among the ones the user may access; nobody else any.
pub open spec fn spec_visible_containers(
    cs: Seq<ContainerInfo>,
    is_admin: bool,
    has_session: bool,
    allowed: Seq<Seq<char>>,
) -> Seq<ContainerInfo> {
    if is_admin {
        cs
    } else if !has_session {
        seq![]
    } else {
        filter_visible(cs, allowed)
    }
}

/// The containers of `containers` that a user sees.
pub fn visible_containers(
    containers: Vec<ContainerInfo>,
    is_admin: bool,
    has_session: bool,
    allowed: &Vec<String>,
) -> (r: Vec<ContainerInfo>)
    ensures
        r@ == spec_visible_containers(containers@, is_admin, has_session, text::string_views(allowed@)),
{
    if is_admin {
        return containers;
    }
    if !has_session {
        return Vec::new();
    }
    let ghost cs = containers@;
    let mut input = containers;
    let mut kept: Vec<ContainerInfo> = Vec::new();
    let mut rest: Vec<ContainerInfo> = Vec::new();
    // Take the containers from the back, then restore their order.
    while input.len() > 0
        invariant
            cs.len() == input@.len() + rest@.len(),
            input@ == cs.subrange(0, input@.len() as int),
            forall|j: int| 0 <= j < rest@.len() ==> rest@[j] == cs[cs.len() - 1 - j],
        decreases input@.len(),
    {
        let c = input.pop().unwrap();
        rest.push(c);
    }
    let n = rest.len();
    let mut i: usize = 0;
    assert(cs.subrange(0, 0) =~= Seq::<ContainerInfo>::empty());
    while rest.len() > 0
        invariant
            n == cs.len(),
            rest@.len() + i == n,
            forall|j: int| 0 <= j < rest@.len() ==> rest@[j] == cs[n - 1 - j],
            kept@ == filter_visible(cs.subrange(0, i as int), text::string_views(allowed@)),
        decreases rest@.len(),
    {
        let c = rest.pop().unwrap();
        assert(c == cs[i as int]);
        let visible = container_visible(c.id.as_str(), allowed);
        proof {
            assert(cs.subrange(0, i + 1).drop_last() =~= cs.subrange(0, i as int));
            assert(cs.subrange(0, i + 1).last() == cs[i as int]);
        }
        if visible {
            kept.push(c);
        }
        i = i + 1;
    }
    assert(cs.subrange(0, n as int) =~= cs);
    kept
}

proof fn lemma_filter_visible_contains(cs: Seq<ContainerInfo>, allowed: Seq<Seq<char>>)
    ensures
        forall|c: ContainerInfo|
            #[trigger] filter_visible(cs, allowed).contains(c) <==> (cs.contains(c)
                && spec_container_visible(c.id@, allowed)),
    decreases cs.len(),
{
    if cs.len() > 0 {
        let front = cs.drop_last();
        lemma_filter_visible_contains(front, allowed);
        let f = filter_visible(front, allowed);
        assert forall|c: ContainerInfo|
            #[trigger] filter_visible(cs, allowed).contains(c) <==> (cs.contains(c)
                && spec_container_visible(c.id@, allowed)) by {
            if f.contains(c) {
                let k = choose|k: int| 0 <= k < f.len() && f[k] == c;
                assert(f.push(cs.last())[k] == c);
            }
            if filter_visible(cs, allowed).contains(c) {
                let k = choose|k: int| 0 <= k < filter_visible(cs, allowed).len() && filter_visible(cs, allowed)[k] == c;
                if spec_container_visible(cs.last().id@, allowed) && k == f.len() {
                    assert(cs[cs.len() - 1] == c);
                } else {
                    assert(f[k] == c);
                    let j = choose|j: int| 0 <= j < front.len() && front[j] == c;
                    assert(cs[j] == c);
                }
            }
            if cs.contains(c) && spec_container_visible(c.id@, allowed) {
                let j = choose|j: int| 0 <= j < cs.len() && cs[j] == c;
                if j == cs.len() - 1 {
                    assert(filter_visible(cs, allowed)[f.len() as int] == c);
                } else {
                    assert(front[j] == c);
                    assert(f.contains(c));
                }
            }
        }
    }
}

/// An administrator sees every container; a user with a session sees exactly the
/// containers whose ids are among the ones the user may access; without a session a
/// user sees none.
pub proof fn lemma_visible_containers_exact(cs: Seq<ContainerInfo>, has_session: bool, allowed: Seq<Seq<char>>)
    ensures
        spec_visible_containers(cs, true, has_session, allowed) == cs,
        forall|c: ContainerInfo|
            #[trigger] spec_visible_containers(cs, false, has_session, allowed).contains(c) <==> (has_session
                && cs.contains(c) && spec_container_visible(c.id@, allowed)),
{
    lemma_filter_visible_contains(cs, allowed);
}

/// Index of the last record for the container `cid` (the one a map keyed by container
/// id keeps), or -1.
pub open spec fn last_row_for(rows: Seq<ServerInfoRow>, cid: Seq<char>) -> int
    decreases rows.len(),
{
    if rows.len() == 0 {
        -1
    } else if rows.last().container_id@ == cid {
        rows.len() - 1
    } else {
        last_row_for(rows.drop_last(), cid)
    }
}

pub proof fn lemma_last_row_for(rows: Seq<ServerInfoRow>, cid: Seq<char>)
    ensures
        -1 <= last_row_for(rows, cid) < rows.len(),
        last_row_for(rows, cid) >= 0 ==> rows[last_row_for(rows, cid)].container_id@ == cid,
        forall|j: int| last_row_for(rows, cid) < j < rows.len() ==> rows[j].container_id@ != cid,
    decreases rows.len(),
{
    if rows.len() > 0 && rows.last().container_id@ != cid {
        lemma_last_row_for(rows.drop_last(), cid);
        assert forall|j: int| last_row_for(rows, cid) < j < rows.len() implies rows[j].container_id@ != cid by {
            if j < rows.len() - 1 {
                assert(rows[j] == rows.drop_last()[j]);
            }
        }
    }
}

/// `n` is `c` with the panel's record attached: when `rows` holds a record for its id,
/// the database id, the display name and (when `with_owner`) the owner come from the
/// last such record; every other field is unchanged.
pub open spec fn info_attached(c: ContainerInfo, n: ContainerInfo, rows: Seq<ServerInfoRow>, with_owner: bool) -> bool {
    let k = last_row_for(rows, c.id@);
    &&& n.id == c.id && n.short_id == c.short_id && n.status == c.status && n.state == c.state
    &&& n.cpu_usage == c.cpu_usage && n.ram_usage == c.ram_usage
    &&& if k >= 0 {
        n.db_id == rows[k].db_id && n.name@ == rows[k].name@ && n.owner@ == (if with_owner {
            rows[k].owner@
        } else {
            c.owner@
        })
    } else {
        n.db_id == c.db_id && n.name@ == c.name@ && n.owner@ == c.owner@
    }
}

/// Index of the last record for `cid`, or `None`.
fn find_row(rows: &Vec<ServerInfoRow>, cid: &str) -> (r: Option<usize>)
    ensures
        match r {
            Some(k) => k as int == last_row_for(rows@, cid@),
            None => last_row_for(rows@, cid@) == -1,
        },
{
    let c = text::chars_of(cid);
    let mut i = rows.len();
    assert(rows@.subrange(0, rows@.len() as int) =~= rows@);
    while i > 0
        invariant
            i <= rows@.len(),
            c@ == cid@,
            last_row_for(rows@, cid@) == last_row_for(rows@.subrange(0, i as int), cid@),
        decreases i,
    {
        let ghost pre = rows@.subrange(0, i as int);
        proof {
            assert(pre.last() == rows@[i - 1]);
            assert(pre.drop_last() =~= rows@.subrange(0, i - 1));
        }
        if text::chars_eq_str(&c, rows[i - 1].container_id.as_str()) {
            return Some(i - 1);
        }
        i = i - 1;
    }
    None
}

/// Attaches the panel's records to each container, in order.
pub fn attach_server_info(containers: Vec<ContainerInfo>, rows: &Vec<ServerInfoRow>, with_owner: bool) -> (r: Vec<ContainerInfo>)
    ensures
        r@.len() == containers@.len(),
        forall|k: int| 0 <= k < r@.len() ==> info_attached(containers@[k], #[trigger] r@[k], rows@, with_owner),
{
    let ghost cs = containers@;
    let mut input = containers;
    let mut rest: Vec<ContainerInfo> = Vec::new();
    while input.len() > 0
        invariant
            cs.len() == input@.len() + rest@.len(),
            input@ == cs.subrange(0, input@.len() as int),
            forall|j: int| 0 <= j < rest@.len() ==> rest@[j] == cs[cs.len() - 1 - j],
        decreases input@.len(),
    {
        let c = input.pop().unwrap();
        rest.push(c);
    }
    let n = rest.len();
    let mut out: Vec<ContainerInfo> = Vec::new();
    while rest.len() > 0
        invariant
            n == cs.len(),
            rest@.len() + out@.len() == n,
            forall|j: int| 0 <= j < rest@.len() ==> rest@[j] == cs[n - 1 - j],
            forall|k: int| 0 <= k < out@.len() ==> info_attached(cs[k], #[trigger] out@[k], rows@, with_owner),
        decreases rest@.len(),
    {
        let c = rest.pop().unwrap();
        let ghost k = out@.len() as int;
        assert(c == cs[k]);
        let found = find_row(rows, c.id.as_str());
        proof {
            lemma_last_row_for(rows@, c.id@);
        }
        let updated = match found {
            Some(idx) => {
                let row = &rows[idx];
                let owner = if with_owner {
                    row.owner.clone()
                } else {
                    c.owner
                };
                ContainerInfo {
                    id: c.id,
                    short_id: c.short_id,
                    name: row.name.clone(),
                    status: c.status,
                    state: c.state,
                    cpu_usage: c.cpu_usage,
                    ram_usage: c.ram_usage,
                    db_id: row.db_id,
                    owner,
                }
            },
            None => c,
        };
        out.push(updated);
    }
    out
}

/// The containers of `cs` whose state is `running`, in order.
pub open spec fn filter_running(cs: Seq<ContainerInfo>) -> Seq<ContainerInfo>
    decreases cs.len(),
{
    if cs.len() == 0 {
        seq![]
    } else if cs.last().state@ == "running"@ {
        filter_running(cs.drop_last()).push(cs.last())
    } else {
        filter_running(cs.drop_last())
    }
}

/// The running containers, in order.
pub fn running_containers(containers: Vec<ContainerInfo>) -> (r: Vec<ContainerInfo>)
    ensures
        r@ == filter_running(containers@),
{
    let ghost cs = containers@;
    let mut input = containers;
    let mut rest: Vec<ContainerInfo> = Vec::new();
    while input.len() > 0
        invariant
            cs.len() == input@.len() + rest@.len(),
            input@ == cs.subrange(0, input@.len() as int),
            forall|j: int| 0 <= j < rest@.len() ==> rest@[j] == cs[cs.len() - 1 - j],
        decreases input@.len(),
    {
        let c = input.pop().unwrap();
        rest.push(c);
    }
    let n = rest.len();
    let mut i: usize = 0;
    let mut kept: Vec<ContainerInfo> = Vec::new();
    assert(cs.subrange(0, 0) =~= Seq::<ContainerInfo>::empty());
    while rest.len() > 0
        invariant
            n == cs.len(),
            rest@.len() + i == n,
            forall|j: int| 0 <= j < rest@.len() ==> rest@[j] == cs[n - 1 - j],
            kept@ == filter_running(cs.subrange(0, i as int)),
        decreases rest@.len(),
    {
        let c = rest.pop().unwrap();
        assert(c == cs[i as int]);
        let running = text::str_eq(c.state.as_str(), "running");
        proof {
            assert(cs.subrange(0, i + 1).drop_last() =~= cs.subrange(0, i as int));
            assert(cs.subrange(0, i + 1).last() == cs[i as int]);
        }
        if running {
            kept.push(c);
        }
        i = i + 1;
    }
    assert(cs.subrange(0, n as int) =~= cs);
    kept
}

/// The label of the signed-in user: the nickname, or the username when the nickname is
/// blank.
pub fn owner_label(username: String, nickname: String) -> (r: String)
    ensures
        r@ == (if text::trim(nickname@).len() == 0 { username@ } else { nickname@ }),
{
    let t = text::trim_str(nickname.as_str());
    if t.len() == 0 {
        username
    } else {
        nickname
    }
}

/// The default disk quota offered for a new server: the stored setting, or `15` (GB)
/// when none is stored.
pub fn default_quota_gb(setting: String) -> (r: String)
    ensures
        r@ == (if setting@.len() == 0 { "15"@ } else { setting@ }),
{
    if setting.as_str().unicode_len() == 0 {
        String::from_str("15")
    } else {
        setting
    }
}

// ───────────────────────── console and stats ─────────────────────────

/// `#<id>`, how audit records name a server.
pub fn server_ref(db_id: i64) -> (r: String)
    ensures
        r@ == "#"@ + text::signed_decimal(db_id as int),
{
    let mut r = String::from_str("#");
    text::push_signed_decimal(&mut r, db_id);
    r
}

/// The trimmed console input `t` can be cut at byte 200: it is no longer than that, or
/// byte 200 starts a character.
pub open spec fn excerpt_cut_ok(t: Seq<char>) -> bool {
    let b = vstd::utf8::encode_utf8(t);
    b.len() <= 200 || vstd::utf8::is_char_boundary(b, 200)
}

/// What the audit log records of a console input: nothing for blank input, otherwise
/// the trimmed input cut to its first 200 bytes.
pub fn console_command_excerpt(text: &str) -> (r: Option<String>)
    requires
        excerpt_cut_ok(text::trim(text@)),
    ensures
        r is None <==> text::trim(text@).len() == 0,
        r matches Some(e) ==> (if vstd::utf8::encode_utf8(text::trim(text@)).len() <= 200 {
            e@ == text::trim(text@)
        } else {
            vstd::utf8::encode_utf8(e@) == vstd::utf8::encode_utf8(text::trim(text@)).subrange(0, 200)
        }),
{
    let t = text::trimmed_string(text);
    let tv = text::chars_of(t.as_str());
    if tv.len() == 0 {
        return None;
    }
    let n = crate::quota::utf8_len_exec(&tv);
    if n <= 200 {
        return Some(t);
    }
    let s = t.as_str();
    let (head, _) = s.split_at(200);
    let owned = head.to_owned();
    proof {
        vstd::utf8::encode_utf8_decode_utf8(owned@);
    }
    Some(owned)
}

/// [`console_command_excerpt`] where its input can be cut; `None` where a cut at byte
/// 200 would split a character.
pub fn console_command_excerpt_checked(text: &str) -> (r: Option<Option<String>>)
    ensures
        r is Some <==> excerpt_cut_ok(text::trim(text@)),
        r matches Some(x) ==> (x is None <==> text::trim(text@).len() == 0),
        r matches Some(x) ==> (x matches Some(e) ==> (if vstd::utf8::encode_utf8(text::trim(text@)).len() <= 200 {
            e@ == text::trim(text@)
        } else {
            vstd::utf8::encode_utf8(e@) == vstd::utf8::encode_utf8(text::trim(text@)).subrange(0, 200)
        })),
{
    let t = text::trimmed_string(text);
    let tv = text::chars_of(t.as_str());
    let n = crate::quota::utf8_len_exec(&tv);
    if n > 200 && !t.as_str().is_char_boundary(200) {
        return None;
    }
    Some(console_command_excerpt(text))
}

/// A frame received on a console socket.
pub enum ConsoleFrame {
    /// Text typed by the user.
    Text(String),
    /// Raw bytes for the container's input.
    Binary(Vec<u8>),
    /// Any other frame (ping, pong, close).
    Other,
}

/// What the panel does with a console frame: the excerpt written to the audit log, if
/// any, and the bytes written to the container's input, if any.
pub struct ConsoleRoute {
    pub audit: Option<String>,
    pub stdin: Option<Vec<u8>>,
}

/// `e` is what the audit log records of the non-blank console input `text`: the trimmed
/// input, cut to its first 200 bytes.
pub open spec fn is_excerpt_of(e: Seq<char>, text: Seq<char>) -> bool {
    if vstd::utf8::encode_utf8(text::trim(text)).len() <= 200 {
        e == text::trim(text)
    } else {
        vstd::utf8::encode_utf8(e) == vstd::utf8::encode_utf8(text::trim(text)).subrange(0, 200)
    }
}

/// Routes a console frame: text is audited (when not blank) and written to the
/// container's input as UTF-8; bytes are written as they are; other frames do nothing.
/// `None` for text that cannot be cut at byte 200 without splitting a character.
pub fn route_console_frame(frame: ConsoleFrame) -> (r: Option<ConsoleRoute>)
    ensures
        match frame {
            ConsoleFrame::Text(t) => (r is Some <==> excerpt_cut_ok(text::trim(t@))) && (r matches Some(x)
                ==> (x.stdin matches Some(b) && b@ == vstd::utf8::encode_utf8(t@)) && (x.audit is None
                <==> text::trim(t@).len() == 0) && (x.audit matches Some(e) ==> is_excerpt_of(e@, t@))),
            ConsoleFrame::Binary(b) => r matches Some(x) && x.audit is None && x.stdin == Some(b),
            ConsoleFrame::Other => r matches Some(x) && x.audit is None && x.stdin is None,
        },
{
    match frame {
        ConsoleFrame::Text(t) => {
            let audit = match console_command_excerpt_checked(t.as_str()) {
                Some(a) => a,
                None => {
                    return None;
                },
            };
            let bytes = t.as_str().as_bytes_vec();
            Some(ConsoleRoute { audit, stdin: Some(bytes) })
        },
        ConsoleFrame::Binary(b) => Some(ConsoleRoute { audit: None, stdin: Some(b) }),
        ConsoleFrame::Other => Some(ConsoleRoute { audit: None, stdin: None }),
    }
}

/// Stats are sampled only for a running container.
pub fn should_sample_stats(state: &str) -> (r: bool)
    ensures
        r == (state@ == "running"@),
{
    text::str_eq(state, "running")
}

/// The state shown for a container: its state when it could be read, else `unknown`.
pub fn state_label(state: Option<String>) -> (r: String)
    ensures
        r@ == (match state {
            Some(s) => s@,
            None => "unknown"@,
        }),
{
    match state {
        Some(s) => s,
        None => String::from_str("unknown"),
    }
}

} // verus!
