//! Interface logic behind the user-facing settings: options, identifiers, peers and the status
//! synchronised with the server process.
use vstd::prelude::*;
use crate::text::{has_prefix, has_suffix, str_ends_with, str_starts_with, trim, trim_str};
use crate::platform::linux::str_eq;
use crate::server::{count_set, kept, remove_exited};
use crate::auth_2fa::{get_2fa, usable_2fa, TOTPInfo};

verus! {

/// A string-keyed option store.
pub struct OptionStore {
    keys: Vec<String>,
    values: Vec<String>,
}

/// The value of `key` in the options: the stored value, or empty when there is none.
pub open spec fn option_value(m: Map<Seq<char>, Seq<char>>, key: Seq<char>) -> Seq<char> {
    if m.contains_key(key) {
        m[key]
    } else {
        Seq::empty()
    }
}

impl OptionStore {
    /// Keys are unique and each has a value.
    #[verifier::type_invariant]
    spec fn wf(&self) -> bool {
        &&& self.keys@.len() == self.values@.len()
        &&& forall|i: int, j: int| 0 <= i < j < self.keys@.len() ==> self.keys@[i]@ != self.keys@[j]@
    }

    closed spec fn has_key(&self, k: Seq<char>) -> bool {
        exists|i: int| 0 <= i < self.keys@.len() && self.keys@[i]@ == k
    }

    closed spec fn index_of(&self, k: Seq<char>) -> int {
        choose|i: int| 0 <= i < self.keys@.len() && self.keys@[i]@ == k
    }

    /// The options as a map from key to value.
    pub closed spec fn view(&self) -> Map<Seq<char>, Seq<char>> {
        Map::new(|k: Seq<char>| self.has_key(k), |k: Seq<char>| self.values@[self.index_of(k)]@)
    }

    proof fn lemma_at(&self, i: int)
        requires
            self.wf(),
            0 <= i < self.keys@.len(),
        ensures
            self.view().contains_key(self.keys@[i]@),
            self.view()[self.keys@[i]@] == self.values@[i]@,
    {
        let k = self.keys@[i]@;
        assert(self.has_key(k));
        assert(self.index_of(k) == i);
    }

    /// An empty store.
    pub fn new() -> (r: OptionStore)
        ensures
            r.view() == Map::<Seq<char>, Seq<char>>::empty(),
    {
        let r = OptionStore { keys: Vec::new(), values: Vec::new() };
        assert(r.view() =~= Map::<Seq<char>, Seq<char>>::empty());
        r
    }

    fn find(&self, key: &str) -> (r: Option<usize>)
        ensures
            match r {
                Some(i) => i < self.keys@.len() && self.keys@[i as int]@ == key@,
                None => !self.view().contains_key(key@),
            },
    {
        let mut i: usize = 0;
        while i < self.keys.len()
            invariant
                i <= self.keys@.len(),
                forall|k: int| 0 <= k < i ==> self.keys@[k]@ != key@,
            decreases self.keys@.len() - i,
        {
            if str_eq(self.keys[i].as_str(), key) {
                return Some(i);
            }
            i = i + 1;
        }
        None
    }

    /// The value stored under `key`, or an empty string.
    pub fn get_option(&self, key: &str) -> (r: String)
        ensures
            r@ == option_value(self.view(), key@),
    {
        proof {
            use_type_invariant(self);
        }
        match self.find(key) {
            Some(i) => {
                proof {
                    self.lemma_at(i as int);
                }
                self.values[i].clone()
            },
            None => String::new(),
        }
    }

    /// Stores `value` under `key`.
    pub fn insert(&mut self, key: String, value: String)
        ensures
            final(self).view() == old(self).view().insert(key@, value@),
    {
        let mut tmp = OptionStore::new();
        std::mem::swap(self, &mut tmp);
        *self = tmp.inserted(key, value);
    }

    fn inserted(self, key: String, value: String) -> (r: OptionStore)
        ensures
            r.view() == self.view().insert(key@, value@),
    {
        proof {
            use_type_invariant(&self);
        }
        let ghost pre = self;
        let found = self.find(key.as_str());
        let OptionStore { mut keys, mut values } = self;
        match found {
            Some(i) => {
                values.set(i, value);
                let r = OptionStore { keys, values };
                proof {
                    use_type_invariant(&r);
                    assert forall|k: Seq<char>| #[trigger] r.view().contains_key(k) <==> pre.view().insert(
                        key@,
                        value@,
                    ).contains_key(k) by {
                        if pre.has_key(k) {
                            let j = pre.index_of(k);
                            assert(r.keys@[j]@ == k);
                        }
                    }
                    assert forall|k: Seq<char>| #[trigger] r.view().contains_key(k) implies r.view()[k]
                        == pre.view().insert(key@, value@)[k] by {
                        let j = r.index_of(k);
                        r.lemma_at(j);
                        if k != key@ {
                            pre.lemma_at(j);
                        }
                    }
                    assert(r.view() =~= pre.view().insert(key@, value@));
                }
                r
            },
            None => {
                let ghost kv = key@;
                keys.push(key);
                values.push(value);
                let r = OptionStore { keys, values };
                proof {
                    use_type_invariant(&r);
                    let n = r.keys@.len() - 1;
                    assert(r.keys@[n]@ == kv);
                    assert forall|j: int| 0 <= j < n implies r.keys@[j] == pre.keys@[j] by {}
                    assert forall|k: Seq<char>| #[trigger] r.view().contains_key(k) <==> pre.view().insert(
                        key@,
                        value@,
                    ).contains_key(k) by {
                        if pre.has_key(k) {
                            let j = pre.index_of(k);
                            assert(r.keys@[j]@ == k);
                        }
                        if k == kv {
                            assert(r.has_key(k));
                        }
                        if r.has_key(k) && k != key@ {
                            let j = r.index_of(k);
                            assert(pre.keys@[j]@ == k);
                        }
                    }
                    assert forall|k: Seq<char>| #[trigger] r.view().contains_key(k) implies r.view()[k]
                        == pre.view().insert(key@, value@)[k] by {
                        let j = r.index_of(k);
                        r.lemma_at(j);
                        if k != key@ {
                            pre.lemma_at(j);
                        } else {
                            assert(j == n);
                        }
                    }
                    assert(r.view() =~= pre.view().insert(key@, value@));
                }
                r
            },
        }
    }

    /// Removes `key`.
    pub fn remove(&mut self, key: &str)
        ensures
            final(self).view() == old(self).view().remove(key@),
    {
        let mut tmp = OptionStore::new();
        std::mem::swap(self, &mut tmp);
        *self = tmp.removed(key);
    }

    fn removed(self, key: &str) -> (r: OptionStore)
        ensures
            r.view() == self.view().remove(key@),
    {
        proof {
            use_type_invariant(&self);
        }
        let ghost pre = self;
        match self.find(key) {
            None => {
                assert(pre.view().remove(key@) =~= pre.view());
                self
            },
            Some(i) => {
                let OptionStore { mut keys, mut values } = self;
                keys.remove(i);
                values.remove(i);
                let r = OptionStore { keys, values };
                proof {
                    use_type_invariant(&r);
                    assert forall|k: Seq<char>| #[trigger] r.view().contains_key(k) <==> pre.view().remove(
                        key@,
                    ).contains_key(k) by {
                        if pre.has_key(k) && k != key@ {
                            let j = pre.index_of(k);
                            if j < i {
                                assert(r.keys@[j]@ == k);
                            } else {
                                assert(r.keys@[j - 1]@ == k);
                            }
                        }
                        if r.has_key(k) {
                            let j = r.index_of(k);
                            if j < i {
                                assert(pre.keys@[j]@ == k);
                            } else {
                                assert(pre.keys@[j + 1]@ == k);
                            }
                        }
                    }
                    assert forall|k: Seq<char>| #[trigger] r.view().contains_key(k) implies r.view()[k]
                        == pre.view().remove(key@)[k] by {
                        let j = r.index_of(k);
                        r.lemma_at(j);
                        if j < i {
                            pre.lemma_at(j);
                        } else {
                            pre.lemma_at(j + 1);
                        }
                    }
                    assert(r.view() =~= pre.view().remove(key@));
                }
                r
            },
        }
    }

    /// Sets `key` to `value`; an empty value removes the option.
    pub fn set_option(&mut self, key: String, value: String)
        ensures
            set_option_post(old(self).view(), final(self).view(), key@, value@),
    {
        if value.as_str().unicode_len() == 0 {
            self.remove(key.as_str());
        } else {
            self.insert(key, value);
        }
    }

    /// Whether a value is stored under `key`.
    pub fn contains_key(&self, key: &str) -> (r: bool)
        ensures
            r == self.view().contains_key(key@),
    {
        proof {
            use_type_invariant(self);
        }
        match self.find(key) {
            Some(i) => {
                proof {
                    self.lemma_at(i as int);
                }
                true
            },
            None => false,
        }
    }
}

/// The effect of `set_option`: an empty value removes the key, any other value is stored.
pub open spec fn set_option_post(
    pre: Map<Seq<char>, Seq<char>>,
    post: Map<Seq<char>, Seq<char>>,
    key: Seq<char>,
    value: Seq<char>,
) -> bool {
    post == (if value.len() == 0 {
        pre.remove(key)
    } else {
        pre.insert(key, value)
    })
}

/// Reading an option after setting it gives the value set, and leaves other options as they
/// were.
pub proof fn lemma_get_after_set(
    pre: Map<Seq<char>, Seq<char>>,
    post: Map<Seq<char>, Seq<char>>,
    key: Seq<char>,
    value: Seq<char>,
)
    requires
        set_option_post(pre, post, key, value),
    ensures
        option_value(post, key) == value,
        forall|k: Seq<char>| k != key ==> #[trigger] option_value(post, k) == option_value(pre, k),
{
    if value.len() == 0 {
        assert(value =~= Seq::<char>::empty());
    }
}

/// Whether the option is fixed by a built-in setting (display, local or general overrides).
pub fn is_option_fixed(
    key: &str,
    display_settings: &OptionStore,
    local_settings: &OptionStore,
    settings: &OptionStore,
) -> (r: bool)
    ensures
        r == (display_settings.view().contains_key(key@) || local_settings.view().contains_key(key@)
            || settings.view().contains_key(key@)),
{
    display_settings.contains_key(key) || local_settings.contains_key(key) || settings.contains_key(
        key,
    )
}


/// `s` without the characters `c` at its end.
pub open spec fn strip_trailing(s: Seq<char>, c: char) -> Seq<char>
    decreases s.len(),
{
    if s.len() > 0 && s.last() == c {
        strip_trailing(s.drop_last(), c)
    } else {
        s
    }
}

/// The part of `s` after its last `c`; all of `s` when it holds no `c`.
pub open spec fn after_last(s: Seq<char>, c: char) -> Seq<char>
    decreases s.len(),
{
    if s.len() == 0 {
        s
    } else if s.last() == c {
        Seq::empty()
    } else {
        after_last(s.drop_last(), c).push(s.last())
    }
}

/// Position just after the last `c` in `s`, or 0 when there is none.
fn after_last_index(s: &str, c: char) -> (r: usize)
    ensures
        r <= s@.len(),
        s@.subrange(r as int, s@.len() as int) == after_last(s@, c),
{
    let n = s.unicode_len();
    let mut i: usize = n;
    assert(s@.subrange(n as int, n as int) =~= Seq::<char>::empty());
    assert(s@.subrange(0, n as int) =~= s@);
    while i > 0 && s.get_char(i - 1) != c
        invariant
            n == s@.len(),
            i <= n,
            after_last(s@, c) == after_last(s@.subrange(0, i as int), c) + s@.subrange(
                i as int,
                n as int,
            ),
        decreases i,
    {
        let ghost pre = s@.subrange(0, i as int);
        assert(pre.drop_last() =~= s@.subrange(0, i - 1));
        assert(s@.subrange(i - 1, n as int) =~= seq![pre.last()] + s@.subrange(i as int, n as int));
        assert(after_last(pre.drop_last(), c).push(pre.last()) + s@.subrange(i as int, n as int)
            =~= after_last(pre.drop_last(), c) + s@.subrange(i - 1, n as int));
        i = i - 1;
    }
    proof {
        let pre = s@.subrange(0, i as int);
        if i == 0 {
            assert(pre =~= Seq::<char>::empty());
        }
        assert(after_last(pre, c) =~= Seq::<char>::empty());
        assert(after_last(s@, c) =~= s@.subrange(i as int, n as int));
    }
    i
}

/// The relay marker (`\\r` or `/r`) at the end of an identifier.
pub open spec fn has_relay_suffix(id: Seq<char>) -> bool {
    has_suffix(id, seq!['\\', 'r']) || has_suffix(id, seq!['/', 'r'])
}

/// An identifier with its relay marker removed; other identifiers are returned unchanged.
pub fn handle_relay_id(id: &str) -> (r: &str)
    ensures
        r@ == (if has_relay_suffix(id@) {
            id@.subrange(0, id@.len() - 2)
        } else {
            id@
        }),
{
    proof {
        reveal_strlit("\\r");
        reveal_strlit("/r");
        assert("\\r"@ =~= seq!['\\', 'r']);
        assert("/r"@ =~= seq!['/', 'r']);
    }
    if str_ends_with(id, "\\r") || str_ends_with(id, "/r") {
        let n = id.unicode_len();
        id.substring_char(0, n - 2)
    } else {
        id
    }
}

/// The avatar address: a path starting with `/` is resolved against the API server (its
/// trailing slashes dropped) when one is configured; anything else is returned trimmed.
pub open spec fn resolved_avatar(avatar: Seq<char>, api_server: Seq<char>) -> Seq<char> {
    let a = trim(avatar);
    if has_prefix(a, seq!['/']) && api_server.len() > 0 {
        strip_trailing(api_server, '/') + a
    } else {
        a
    }
}

/// `s` with the characters `c` at its end removed.
fn strip_trailing_str(s: &str, c: char) -> (r: &str)
    ensures
        r@ == strip_trailing(s@, c),
{
    let n = s.unicode_len();
    let mut b: usize = n;
    assert(s@.subrange(0, n as int) =~= s@);
    while b > 0 && s.get_char(b - 1) == c
        invariant
            n == s@.len(),
            b <= n,
            strip_trailing(s@, c) == strip_trailing(s@.subrange(0, b as int), c),
        decreases b,
    {
        assert(s@.subrange(0, b as int).drop_last() =~= s@.subrange(0, b - 1));
        b = b - 1;
    }
    s.substring_char(0, b)
}

/// Resolves a relative avatar path (such as `/avatar/xxx`) to an absolute address by prepending
/// the API server address.
pub fn resolve_avatar_url(avatar: String, api_server: &str) -> (r: String)
    ensures
        r@ == resolved_avatar(avatar@, api_server@),
{
    let a = trim_str(avatar.as_str());
    proof {
        reveal_strlit("/");
        assert("/"@ =~= seq!['/']);
    }
    if str_starts_with(a, "/") && api_server.unicode_len() > 0 {
        let mut out = String::from_str(strip_trailing_str(api_server, '/'));
        out.append(a);
        out
    } else {
        String::from_str(a)
    }
}

/// The configured directory for recordings, with surrounding whitespace removed; `None` when
/// nothing but whitespace is configured. Relative paths are kept as they are.
pub fn trim_video_save_directory(value: &str) -> (r: Option<&str>)
    ensures
        match r {
            Some(t) => t@ == trim(value@) && t@.len() > 0,
            None => trim(value@).len() == 0,
        },
{
    let t = trim_str(value);
    if t.unicode_len() > 0 {
        Some(t)
    } else {
        None
    }
}

/// A path is absolute when it starts at the root.
pub open spec fn is_absolute_path(p: Seq<char>) -> bool {
    has_prefix(p, seq!['/'])
}

/// The recording directory configured for a service, which must be an absolute path: a service
/// does not run in the user's working directory.
pub fn validate_windows_service_video_save_directory(value: &str) -> (r: Option<&str>)
    ensures
        match r {
            Some(t) => t@ == trim(value@) && is_absolute_path(t@),
            None => !is_absolute_path(trim(value@)),
        },
{
    match trim_video_save_directory(value) {
        Some(t) => {
            proof {
                reveal_strlit("/");
                assert("/"@ =~= seq!['/']);
            }
            if str_starts_with(t, "/") {
                Some(t)
            } else {
                None
            }
        },
        None => None,
    }
}

/// The version named by an update address: what follows its last `/`.
pub fn get_new_version(update_url: &str) -> (r: String)
    ensures
        r@ == after_last(update_url@, '/'),
{
    let i = after_last_index(update_url, '/');
    let n = update_url.unicode_len();
    String::from_str(update_url.substring_char(i, n))
}

/// The status an asynchronous job reports before it has finished.
pub const INIT_ASYNC_JOB_STATUS: &'static str = " ";

/// The initial status of an asynchronous job.
pub fn get_init_async_job_status() -> (r: String)
    ensures
        r@ == seq![' '],
{
    proof {
        reveal_strlit(" ");
    }
    String::from_str(INIT_ASYNC_JOB_STATUS)
}

/// A SOCKS5 proxy setting.
pub struct Socks5Server {
    pub proxy: String,
    pub username: String,
    pub password: String,
}

/// The proxy setting as a list: address, user name and password; empty when none is set.
pub fn get_socks(s: Option<Socks5Server>) -> (r: Vec<String>)
    ensures
        match s {
            None => r@.len() == 0,
            Some(v) => r@.len() == 3 && r@[0]@ == v.proxy@ && r@[1]@ == v.username@ && r@[2]@
                == v.password@,
        },
{
    match s {
        None => Vec::new(),
        Some(s) => {
            let mut v = Vec::new();
            v.push(s.proxy);
            v.push(s.username);
            v.push(s.password);
            v
        },
    }
}

/// The proxy setting made of its three parts.
pub fn set_socks(proxy: String, username: String, password: String) -> (r: Socks5Server)
    ensures
        r.proxy@ == proxy@,
        r.username@ == username@,
        r.password@ == password@,
{
    Socks5Server { proxy, username, password }
}


/// Status of the link to the server process, as shown to the user.
pub struct UiStatus {
    pub status_num: i32,
    pub key_confirmed: bool,
    pub mouse_time: i64,
    pub id: String,
}

/// A message exchanged with the server process about the shown status. A `None` payload asks
/// for the current value.
pub enum IpcData {
    MouseMoveTime(i64),
    Options(Option<OptionStore>),
    Config(String, Option<String>),
    OnlineStatus(Option<(i64, bool)>),
    ControlPermissionsRemoteModify(Option<bool>),
    Other,
}

/// What the user interface knows of the server process: the shown status, the options it
/// reported, and the last values it sent.
pub struct StatusSync {
    pub ui_status: UiStatus,
    pub options: OptionStore,
    pub option_synced: bool,
    pub remote_modify_enabled: Option<bool>,
    pub key_confirmed: bool,
    pub mouse_time: i64,
    pub id: String,
}

/// The online state as shown: any positive state is shown as 1.
pub open spec fn shown_online_state(x: i64) -> i32 {
    if x > 0 {
        1
    } else {
        #[verifier::truncate]
        (x as i32)
    }
}

/// The status fields of `post` are those of `pre`, but for the ones a message changed.
pub open spec fn same_status(a: UiStatus, b: UiStatus) -> bool {
    a.status_num == b.status_num && a.key_confirmed == b.key_confirmed && a.mouse_time
        == b.mouse_time && a.id@ == b.id@
}

/// What a message from the server process changes.
pub open spec fn after_ipc_data(pre: StatusSync, post: StatusSync, data: IpcData) -> bool {
    match data {
        IpcData::MouseMoveTime(v) => {
            &&& post.mouse_time == v
            &&& post.ui_status.mouse_time == v
            &&& post.ui_status.status_num == pre.ui_status.status_num
            &&& post.ui_status.key_confirmed == pre.ui_status.key_confirmed
            &&& post.ui_status.id@ == pre.ui_status.id@
            &&& post.options.view() == pre.options.view()
            &&& post.option_synced == pre.option_synced
            &&& post.remote_modify_enabled == pre.remote_modify_enabled
            &&& post.key_confirmed == pre.key_confirmed
            &&& post.id@ == pre.id@
        },
        IpcData::Options(Some(v)) => {
            &&& post.options.view() == v.view()
            &&& post.option_synced
            &&& same_status(post.ui_status, pre.ui_status)
            &&& post.remote_modify_enabled == pre.remote_modify_enabled
            &&& post.key_confirmed == pre.key_confirmed
            &&& post.mouse_time == pre.mouse_time
            &&& post.id@ == pre.id@
        },
        IpcData::Config(name, Some(value)) => {
            &&& post.id@ == (if name@ == seq!['i', 'd'] {
                value@
            } else {
                pre.id@
            })
            &&& same_status(post.ui_status, pre.ui_status)
            &&& post.options.view() == pre.options.view()
            &&& post.option_synced == pre.option_synced
            &&& post.remote_modify_enabled == pre.remote_modify_enabled
            &&& post.key_confirmed == pre.key_confirmed
            &&& post.mouse_time == pre.mouse_time
        },
        IpcData::OnlineStatus(Some((x, c))) => {
            &&& post.key_confirmed == c
            &&& post.ui_status.status_num == shown_online_state(x)
            &&& post.ui_status.key_confirmed == c
            &&& post.ui_status.mouse_time == pre.mouse_time
            &&& post.ui_status.id@ == pre.id@
            &&& post.options.view() == pre.options.view()
            &&& post.option_synced == pre.option_synced
            &&& post.remote_modify_enabled == pre.remote_modify_enabled
            &&& post.mouse_time == pre.mouse_time
            &&& post.id@ == pre.id@
        },
        IpcData::ControlPermissionsRemoteModify(v) => {
            &&& post.remote_modify_enabled == v
            &&& same_status(post.ui_status, pre.ui_status)
            &&& post.options.view() == pre.options.view()
            &&& post.option_synced == pre.option_synced
            &&& post.key_confirmed == pre.key_confirmed
            &&& post.mouse_time == pre.mouse_time
            &&& post.id@ == pre.id@
        },
        _ => {
            &&& same_status(post.ui_status, pre.ui_status)
            &&& post.options.view() == pre.options.view()
            &&& post.option_synced == pre.option_synced
            &&& post.remote_modify_enabled == pre.remote_modify_enabled
            &&& post.key_confirmed == pre.key_confirmed
            &&& post.mouse_time == pre.mouse_time
            &&& post.id@ == pre.id@
        },
    }
}

fn copy_string(s: &String) -> (r: String)
    ensures
        r@ == s@,
{
    String::from_str(s.as_str())
}

impl StatusSync {
    /// The state before the server process has been heard from.
    pub fn new(options: OptionStore) -> (r: StatusSync)
        ensures
            r.options.view() == options.view(),
            r.ui_status.status_num == 0,
            !r.ui_status.key_confirmed,
            r.ui_status.mouse_time == 0,
            r.ui_status.id@.len() == 0,
            !r.option_synced,
            r.remote_modify_enabled is None,
            !r.key_confirmed,
            r.mouse_time == 0,
            r.id@.len() == 0,
    {
        StatusSync {
            ui_status: UiStatus {
                status_num: 0,
                key_confirmed: false,
                mouse_time: 0,
                id: String::new(),
            },
            options,
            option_synced: false,
            remote_modify_enabled: None,
            key_confirmed: false,
            mouse_time: 0,
            id: String::new(),
        }
    }

    /// Takes in a message from the server process.
    pub fn on_ipc_data(&mut self, data: IpcData)
        ensures
            after_ipc_data(*old(self), *final(self), data),
    {
        match data {
            IpcData::MouseMoveTime(v) => {
                self.mouse_time = v;
                self.ui_status.mouse_time = v;
            },
            IpcData::Options(Some(v)) => {
                self.options = v;
                self.option_synced = true;
            },
            IpcData::Config(name, Some(value)) => {
                proof {
                    reveal_strlit("id");
                    assert("id"@ =~= seq!['i', 'd']);
                }
                if str_eq(name.as_str(), "id") {
                    self.id = value;
                }
            },
            IpcData::OnlineStatus(Some((x, c))) => {
                let shown: i32 = if x > 0 {
                    1
                } else {
                    #[verifier::truncate]
                    (x as i32)
                };
                self.key_confirmed = c;
                self.ui_status = UiStatus {
                    status_num: shown,
                    key_confirmed: c,
                    mouse_time: self.mouse_time,
                    id: copy_string(&self.id),
                };
            },
            IpcData::ControlPermissionsRemoteModify(v) => {
                self.remote_modify_enabled = v;
            },
            _ => {},
        }
    }

    /// The link to the server process was lost. Without reconnecting, the options record that
    /// it closed and the loop ends (`false`); otherwise the status shows the link as down and
    /// the loop goes on (`true`).
    pub fn on_ipc_closed(&mut self, reconnect: bool) -> (r: bool)
        ensures
            r == reconnect,
            !reconnect ==> final(self).options.view() == old(self).options.view().insert(
                seq!['i', 'p', 'c', '-', 'c', 'l', 'o', 's', 'e', 'd'],
                seq!['Y'],
            ),
            !reconnect ==> same_status(final(self).ui_status, old(self).ui_status),
            reconnect ==> final(self).options.view() == old(self).options.view(),
            reconnect ==> final(self).ui_status.status_num == -1,
            reconnect ==> final(self).ui_status.key_confirmed == old(self).key_confirmed,
            reconnect ==> final(self).ui_status.mouse_time == old(self).mouse_time,
            reconnect ==> final(self).ui_status.id@ == old(self).id@,
            final(self).option_synced == old(self).option_synced,
            final(self).remote_modify_enabled == old(self).remote_modify_enabled,
            final(self).key_confirmed == old(self).key_confirmed,
            final(self).mouse_time == old(self).mouse_time,
            final(self).id@ == old(self).id@,
    {
        if !reconnect {
            proof {
                reveal_strlit("ipc-closed");
                reveal_strlit("Y");
                assert("ipc-closed"@ =~= seq!['i', 'p', 'c', '-', 'c', 'l', 'o', 's', 'e', 'd']);
                assert("Y"@ =~= seq!['Y']);
            }
            self.options.insert(String::from_str("ipc-closed"), String::from_str("Y"));
            return false;
        }
        self.ui_status = UiStatus {
            status_num: -1,
            key_confirmed: self.key_confirmed,
            mouse_time: self.mouse_time,
            id: copy_string(&self.id),
        };
        true
    }

    /// The status as shown.
    pub fn get_connect_status(&self) -> (r: UiStatus)
        ensures
            same_status(r, self.ui_status),
    {
        UiStatus {
            status_num: self.ui_status.status_num,
            key_confirmed: self.ui_status.key_confirmed,
            mouse_time: self.ui_status.mouse_time,
            id: copy_string(&self.ui_status.id),
        }
    }

    /// Whether the options have been received from the server process.
    pub fn option_synced(&self) -> (r: bool)
        ensures
            r == self.option_synced,
    {
        self.option_synced
    }

    /// Whether the control permissions let the peer modify remote settings, as last reported.
    pub fn is_remote_modify_enabled_by_control_permissions(&self) -> (r: Option<bool>)
        ensures
            r == self.remote_modify_enabled,
    {
        self.remote_modify_enabled
    }
}

/// The questions put to the server process once a second: online state, options, identifier,
/// temporary password and the remote-modify permission.
pub fn status_requests() -> (r: Vec<IpcData>)
    ensures
        r@.len() == 5,
        r@[0] matches IpcData::OnlineStatus(None),
        r@[1] matches IpcData::Options(None),
        r@[2] matches IpcData::Config(n, None) && n@ == seq!['i', 'd'],
        r@[3] matches IpcData::Config(n, None) && n@ == seq![
            't', 'e', 'm', 'p', 'o', 'r', 'a', 'r', 'y', '-', 'p', 'a', 's', 's', 'w', 'o', 'r', 'd'
        ],
        r@[4] matches IpcData::ControlPermissionsRemoteModify(None),
{
    proof {
        reveal_strlit("id");
        reveal_strlit("temporary-password");
        assert("id"@ =~= seq!['i', 'd']);
        assert("temporary-password"@ =~= seq![
            't', 'e', 'm', 'p', 'o', 'r', 'a', 'r', 'y', '-', 'p', 'a', 's', 's', 'w', 'o', 'r', 'd'
        ]);
    }
    let mut v = Vec::new();
    v.push(IpcData::OnlineStatus(None));
    v.push(IpcData::Options(None));
    v.push(IpcData::Config(String::from_str("id"), None));
    v.push(IpcData::Config(String::from_str("temporary-password"), None));
    v.push(IpcData::ControlPermissionsRemoteModify(None));
    v
}

/// The message that asks the server process for the time of the last mouse move.
pub fn check_mouse_time() -> (r: IpcData)
    ensures
        r == IpcData::MouseMoveTime(0),
{
    IpcData::MouseMoveTime(0)
}


/// Message for an identifier the server refused as malformed.
pub const INVALID_FORMAT: &'static str = "Invalid format";

/// Message for a failure with no more precise cause.
pub const UNKNOWN_ERROR: &'static str = "Unknown error";

/// The answer a rendezvous server gives to a request to register a new identifier.
pub enum RegisterPkResult {
    Accepted,
    IdExists,
    TooFrequent,
    NotSupport,
    ServerError,
    InvalidIdFormat,
    Other,
}

/// How a request to one rendezvous server went: no connection, or a connection and perhaps an
/// answer to the request.
pub enum CheckIdOutcome {
    ConnectFailed,
    Connected(Option<RegisterPkResult>),
}

/// The message for an outcome: empty on success.
pub open spec fn check_id_text(o: CheckIdOutcome) -> Seq<char> {
    match o {
        CheckIdOutcome::ConnectFailed => "Failed to connect to rendezvous server"@,
        CheckIdOutcome::Connected(Some(RegisterPkResult::Accepted)) => Seq::empty(),
        CheckIdOutcome::Connected(Some(RegisterPkResult::IdExists)) => "Not available"@,
        CheckIdOutcome::Connected(Some(RegisterPkResult::TooFrequent)) => "Too frequent"@,
        CheckIdOutcome::Connected(Some(RegisterPkResult::NotSupport)) => "server_not_support"@,
        CheckIdOutcome::Connected(Some(RegisterPkResult::ServerError)) => "Server error"@,
        CheckIdOutcome::Connected(Some(RegisterPkResult::InvalidIdFormat)) => INVALID_FORMAT@,
        _ => UNKNOWN_ERROR@,
    }
}

/// The message the user sees for the outcome of a request to one server: empty when the new
/// identifier was accepted.
pub fn check_id(outcome: CheckIdOutcome) -> (r: &'static str)
    ensures
        r@ == check_id_text(outcome),
{
    match outcome {
        CheckIdOutcome::ConnectFailed => "Failed to connect to rendezvous server",
        CheckIdOutcome::Connected(Some(RegisterPkResult::Accepted)) => {
            proof {
                reveal_strlit("");
                assert(""@ =~= Seq::<char>::empty());
            }
            ""
        },
        CheckIdOutcome::Connected(Some(RegisterPkResult::IdExists)) => "Not available",
        CheckIdOutcome::Connected(Some(RegisterPkResult::TooFrequent)) => "Too frequent",
        CheckIdOutcome::Connected(Some(RegisterPkResult::NotSupport)) => "server_not_support",
        CheckIdOutcome::Connected(Some(RegisterPkResult::ServerError)) => "Server error",
        CheckIdOutcome::Connected(Some(RegisterPkResult::InvalidIdFormat)) => INVALID_FORMAT,
        _ => UNKNOWN_ERROR,
    }
}

/// The last non-empty message of `errs`, or empty when all are empty.
pub open spec fn last_error(errs: Seq<Seq<char>>) -> Seq<char>
    decreases errs.len(),
{
    if errs.len() == 0 {
        Seq::empty()
    } else if errs.last().len() > 0 {
        errs.last()
    } else {
        last_error(errs.drop_last())
    }
}

/// The views of a list of strings.
pub open spec fn texts(v: Seq<String>) -> Seq<Seq<char>> {
    v.map_values(|s: String| s@)
}

/// The result of changing the identifier: a malformed identifier or a missing machine
/// identifier fail at once; otherwise the last error reported by a server, in the order the
/// answers came, or empty when every server accepted.
pub open spec fn change_id_text(id_valid: bool, uuid_empty: bool, answers: Seq<Seq<char>>) -> Seq<
    char,
> {
    if !id_valid {
        INVALID_FORMAT@
    } else if uuid_empty {
        UNKNOWN_ERROR@
    } else {
        last_error(answers)
    }
}

/// Combines what is known before and after asking the rendezvous servers into the result of an
/// identifier change. `answers` holds each server's message in the order the answers arrived.
pub fn change_id_shared_(id_valid: bool, uuid_empty: bool, answers: &Vec<String>) -> (r: String)
    ensures
        r@ == change_id_text(id_valid, uuid_empty, texts(answers@)),
{
    if !id_valid {
        return String::from_str(INVALID_FORMAT);
    }
    if uuid_empty {
        return String::from_str(UNKNOWN_ERROR);
    }
    let mut err = String::new();
    let mut i: usize = 0;
    while i < answers.len()
        invariant
            i <= answers@.len(),
            err@ == last_error(texts(answers@.subrange(0, i as int))),
        decreases answers@.len() - i,
    {
        let ghost pre = texts(answers@.subrange(0, i as int));
        assert(texts(answers@.subrange(0, i + 1)).drop_last() =~= pre);
        if answers[i].as_str().unicode_len() > 0 {
            err = copy_string(&answers[i]);
        }
        i = i + 1;
    }
    assert(answers@.subrange(0, answers@.len() as int) =~= answers@);
    err
}

/// Whether the identifier change went through on every server.
pub proof fn lemma_change_id_succeeds_iff_all_accept(
    id_valid: bool,
    uuid_empty: bool,
    answers: Seq<Seq<char>>,
)
    ensures
        change_id_text(id_valid, uuid_empty, answers).len() == 0 <==> (id_valid && !uuid_empty
            && forall|i: int| 0 <= i < answers.len() ==> #[trigger] answers[i].len() == 0),
    decreases answers.len(),
{
    reveal_strlit("Invalid format");
    reveal_strlit("Unknown error");
    if id_valid && !uuid_empty && answers.len() > 0 {
        lemma_change_id_succeeds_iff_all_accept(id_valid, uuid_empty, answers.drop_last());
        let d = answers.drop_last();
        if answers.last().len() == 0 {
            assert forall|i: int| 0 <= i < answers.len() && (forall|j: int|
                0 <= j < d.len() ==> #[trigger] d[j].len() == 0) implies #[trigger] answers[i].len()
                == 0 by {
                if i < d.len() {
                    assert(d[i] == answers[i]);
                }
            }
            assert((forall|j: int| 0 <= j < answers.len() ==> #[trigger] answers[j].len() == 0) ==> (
            forall|j: int| 0 <= j < d.len() ==> #[trigger] d[j].len() == 0)) by {
                assert forall|j: int| 0 <= j < d.len() implies answers[j] == d[j] by {}
            }
        } else {
            assert(answers[answers.len() - 1].len() > 0);
        }
    }
}


/// What to do with a remote session window about to be opened for a peer.
pub enum RemoteAction {
    /// No window is open for this peer and kind: open one.
    Spawn,
    /// The window for this peer and kind has exited: forget it and open a new one.
    ReplaceExited,
    /// A remote desktop window is still open: close it and open a new one.
    KillAndSpawn,
    /// A window is still open: leave it.
    KeepRunning,
}

/// How a remote session is opened: what to do with an open window, and the arguments of a new
/// one.
pub struct RemotePlan {
    pub action: RemoteAction,
    pub args: Vec<String>,
}

/// The arguments that open a session of kind `remote_type` to `id`; a forced relay adds an
/// empty password and `--relay`.
pub open spec fn remote_args(id: Seq<char>, remote_type: Seq<char>, force_relay: bool) -> Seq<
    Seq<char>,
> {
    let base = seq![seq!['-', '-'] + remote_type, id];
    if force_relay {
        base + seq![Seq::empty(), "--relay"@]
    } else {
        base
    }
}

/// What to do given the window already open for the peer and kind, if any (`Some(true)` when
/// it has exited).
pub open spec fn remote_action(existing: Option<bool>, remote_type: Seq<char>) -> RemoteAction {
    match existing {
        None => RemoteAction::Spawn,
        Some(true) => RemoteAction::ReplaceExited,
        Some(false) => if remote_type == "rdp"@ {
            RemoteAction::KillAndSpawn
        } else {
            RemoteAction::KeepRunning
        },
    }
}

/// Plans the opening of a remote session window of kind `remote_type` to `id`.
pub fn new_remote(id: &str, remote_type: &str, force_relay: bool, existing: Option<bool>) -> (r:
    RemotePlan)
    ensures
        r.action == remote_action(existing, remote_type@),
        texts(r.args@) == remote_args(id@, remote_type@, force_relay),
{
    proof {
        reveal_strlit("--");
        reveal_strlit("--relay");
        reveal_strlit("");
        reveal_strlit("rdp");
        assert("--"@ =~= seq!['-', '-']);
        assert(""@ =~= Seq::<char>::empty());
    }
    let mut first = String::from_str("--");
    first.append(remote_type);
    let mut args: Vec<String> = Vec::new();
    args.push(first);
    args.push(String::from_str(id));
    if force_relay {
        args.push(String::from_str(""));
        args.push(String::from_str("--relay"));
    }
    proof {
        assert(texts(args@) =~= remote_args(id@, remote_type@, force_relay));
    }
    let action = match existing {
        None => RemoteAction::Spawn,
        Some(true) => RemoteAction::ReplaceExited,
        Some(false) => if str_eq(remote_type, "rdp") {
            RemoteAction::KillAndSpawn
        } else {
            RemoteAction::KeepRunning
        },
    };
    RemotePlan { action, args }
}

/// Drops the session windows that have exited and records that the list of recent sessions
/// changed when any was dropped.
pub fn check_zombie<T>(children: &mut Vec<T>, exited: &[bool], updated: &mut bool)
    requires
        old(children)@.len() == exited@.len(),
    ensures
        final(children)@ == kept(old(children)@, exited@),
        *final(updated) == (*old(updated) || count_set(exited@, exited@.len() as int) > 0),
{
    let n = remove_exited(children, exited);
    if n > 0 {
        *updated = true;
    }
}

/// Whether the list of recent sessions changed since the last call; the mark is cleared.
pub fn recent_sessions_updated(updated: &mut bool) -> (r: bool)
    ensures
        r == *old(updated),
        !*final(updated),
{
    if *updated {
        *updated = false;
        true
    } else {
        false
    }
}

/// What a login reports of the device.
pub struct LoginDeviceInfo {
    pub os: String,
    pub device_type: String,
    pub name: String,
}

/// The device a login comes from: this operating system and host, as a client.
pub fn get_login_device_info(os: &str, hostname: String) -> (r: LoginDeviceInfo)
    ensures
        r.os@ == os@,
        r.device_type@ == "client"@,
        r.name@ == hostname@,
{
    LoginDeviceInfo { os: String::from_str(os), device_type: String::from_str("client"), name: hostname }
}

/// `name` appended to the path `base`, with one separator between them; an absolute `name`
/// replaces `base`.
pub open spec fn path_join(base: Seq<char>, name: Seq<char>) -> Seq<char> {
    if has_prefix(name, seq!['/']) || base.len() == 0 {
        name
    } else if has_suffix(base, seq!['/']) {
        base + name
    } else {
        base + seq!['/'] + name
    }
}

/// Joins `name` to the path `base`.
pub fn path_join_str(base: &str, name: &str) -> (r: String)
    ensures
        r@ == path_join(base@, name@),
{
    proof {
        reveal_strlit("/");
        assert("/"@ =~= seq!['/']);
    }
    if str_starts_with(name, "/") || base.unicode_len() == 0 {
        return String::from_str(name);
    }
    let mut out = String::from_str(base);
    if !str_ends_with(base, "/") {
        out.append("/");
    }
    out.append(name);
    out
}

/// A place where recordings may go, tried in turn.
pub enum DirCandidate {
    /// The directory, created if missing; taken if it then exists.
    Create(String),
    /// The directory, taken if it exists.
    IfExists(String),
    /// The directory, taken in any case.
    Always(String),
}

/// The standard directories of the user running the program.
pub struct UserDirs {
    pub video: Option<String>,
    pub desktop: Option<String>,
    pub home: String,
}

/// Where recordings go: the configured directory, or the first of the candidates that works.
pub enum VideoDirPlan {
    Configured(String),
    Search(Vec<DirCandidate>),
}

/// The path a candidate names, and whether it is a `Create`, `IfExists` or `Always` one (0, 1
/// or 2).
pub open spec fn candidate_view(c: DirCandidate) -> (int, Seq<char>) {
    match c {
        DirCandidate::Create(p) => (0, p@),
        DirCandidate::IfExists(p) => (1, p@),
        DirCandidate::Always(p) => (2, p@),
    }
}

pub open spec fn candidate_views(v: Seq<DirCandidate>) -> Seq<(int, Seq<char>)> {
    v.map_values(|c: DirCandidate| candidate_view(c))
}

/// The candidates from the user's standard directories: the video directory's folder for the
/// application, the video directory, the desktop, the home directory.
pub open spec fn user_dir_candidates(app: Seq<char>, u: Option<UserDirs>) -> Seq<(int, Seq<char>)> {
    match u {
        None => Seq::empty(),
        Some(d) => (match d.video {
            Some(v) => seq![(0int, path_join(v@, app)), (1int, v@)],
            None => Seq::empty(),
        }) + (match d.desktop {
            Some(x) => seq![(1int, x@)],
            None => Seq::empty(),
        }) + seq![(1int, d.home@)],
    }
}

/// The same places under the home directory of the active user.
pub open spec fn home_candidates(app: Seq<char>, home: Option<String>) -> Seq<(int, Seq<char>)> {
    match home {
        None => Seq::empty(),
        Some(h) => {
            let videos = path_join(h@, "Videos"@);
            seq![(0int, path_join(videos, app)), (1int, videos), (1int, path_join(h@, "Desktop"@)), (1int, h@)]
        },
    }
}

/// A `videos` folder beside the program, else the program's own directory.
pub open spec fn exe_candidates(exe_dir: Option<String>) -> Seq<(int, Seq<char>)> {
    match exe_dir {
        None => Seq::empty(),
        Some(p) => seq![(0int, path_join(p@, "videos"@)), (2int, p@)],
    }
}

/// The directory for recordings: the configured one when set, else the candidates in the
/// order they are tried.
pub fn video_save_directory(
    configured: &str,
    app_name: &str,
    user_dirs: Option<UserDirs>,
    active_user_home: Option<String>,
    exe_dir: Option<String>,
) -> (r: VideoDirPlan)
    ensures
        match r {
            VideoDirPlan::Configured(d) => trim(configured@).len() > 0 && d@ == trim(configured@),
            VideoDirPlan::Search(c) => trim(configured@).len() == 0 && candidate_views(c@)
                == user_dir_candidates(app_name@, user_dirs) + home_candidates(
                app_name@,
                active_user_home,
            ) + exe_candidates(exe_dir),
        },
{
    if let Some(d) = trim_video_save_directory(configured) {
        return VideoDirPlan::Configured(String::from_str(d));
    }
    let ghost u = user_dirs;
    let ghost h0 = active_user_home;
    let ghost e0 = exe_dir;
    let mut c: Vec<DirCandidate> = Vec::new();
    match user_dirs {
        Some(d) => {
            match d.video {
                Some(v) => {
                    c.push(DirCandidate::Create(path_join_str(v.as_str(), app_name)));
                    c.push(DirCandidate::IfExists(v));
                },
                None => {},
            }
            match d.desktop {
                Some(x) => {
                    c.push(DirCandidate::IfExists(x));
                },
                None => {},
            }
            c.push(DirCandidate::IfExists(d.home));
        },
        None => {},
    }
    assert(candidate_views(c@) =~= user_dir_candidates(app_name@, u));
    let ghost c1 = candidate_views(c@);
    proof {
        reveal_strlit("Videos");
        reveal_strlit("Desktop");
        reveal_strlit("videos");
    }
    match active_user_home {
        Some(h) => {
            let videos = path_join_str(h.as_str(), "Videos");
            c.push(DirCandidate::Create(path_join_str(videos.as_str(), app_name)));
            c.push(DirCandidate::IfExists(videos));
            c.push(DirCandidate::IfExists(path_join_str(h.as_str(), "Desktop")));
            c.push(DirCandidate::IfExists(h));
        },
        None => {},
    }
    assert(candidate_views(c@) =~= c1 + home_candidates(app_name@, h0));
    let ghost c2 = candidate_views(c@);
    match exe_dir {
        Some(p) => {
            c.push(DirCandidate::Create(path_join_str(p.as_str(), "videos")));
            c.push(DirCandidate::Always(p));
        },
        None => {},
    }
    assert(candidate_views(c@) =~= c2 + exe_candidates(e0));
    VideoDirPlan::Search(c)
}

/// The index of the first candidate that worked, if any.
pub open spec fn first_working(ok: Seq<bool>, n: int) -> Option<int>
    decreases n,
{
    if n <= 0 {
        None
    } else {
        match first_working(ok, n - 1) {
            Some(i) => Some(i),
            None => if ok[n - 1] {
                Some(n - 1)
            } else {
                None
            },
        }
    }
}

/// The first candidate that worked (`ok[i]` for `candidates[i]`), or an empty path when none
/// did.
pub fn pick_video_dir(candidates: &Vec<DirCandidate>, ok: &[bool]) -> (r: String)
    requires
        candidates@.len() == ok@.len(),
    ensures
        r@ == (match first_working(ok@, ok@.len() as int) {
            Some(i) => candidate_view(candidates@[i]).1,
            None => Seq::empty(),
        }),
{
    let mut i: usize = 0;
    while i < ok.len()
        invariant
            candidates@.len() == ok@.len(),
            i <= ok@.len(),
            first_working(ok@, i as int) is None,
        decreases ok@.len() - i,
    {
        if ok[i] {
            proof {
                lemma_first_working_stays(ok@, i + 1, ok@.len() as int);
            }
            return match &candidates[i] {
                DirCandidate::Create(p) => copy_string(p),
                DirCandidate::IfExists(p) => copy_string(p),
                DirCandidate::Always(p) => copy_string(p),
            };
        }
        i = i + 1;
    }
    String::new()
}

proof fn lemma_first_working_stays(ok: Seq<bool>, m: int, n: int)
    requires
        0 <= m <= n,
        first_working(ok, m) is Some,
    ensures
        first_working(ok, n) == first_working(ok, m),
    decreases n - m,
{
    if n > m {
        lemma_first_working_stays(ok, m, n - 1);
    }
}

/// A peer found on the local network.
pub struct LanPeer {
    pub id: String,
    pub username: String,
    pub hostname: String,
    pub platform: String,
}

/// The fields of a peer, by name: id, username, hostname and platform.
pub open spec fn peer_fields(p: LanPeer) -> Seq<(Seq<char>, Seq<char>)> {
    seq![("id"@, p.id@), ("username"@, p.username@), ("hostname"@, p.hostname@), ("platform"@, p.platform@)]
}

pub open spec fn field_views(v: Seq<(&'static str, String)>) -> Seq<(Seq<char>, Seq<char>)> {
    v.map_values(|e: (&'static str, String)| (e.0@, e.1@))
}

/// The peers found on the local network, each as its named fields.
pub fn get_lan_peers(peers: &Vec<LanPeer>) -> (r: Vec<Vec<(&'static str, String)>>)
    ensures
        r@.len() == peers@.len(),
        forall|i: int| 0 <= i < peers@.len() ==> field_views(#[trigger] r@[i]@) == peer_fields(
            peers@[i],
        ),
{
    let mut r: Vec<Vec<(&'static str, String)>> = Vec::new();
    let mut i: usize = 0;
    while i < peers.len()
        invariant
            i <= peers@.len(),
            r@.len() == i,
            forall|k: int| 0 <= k < i ==> field_views(#[trigger] r@[k]@) == peer_fields(peers@[k]),
        decreases peers@.len() - i,
    {
        let p = &peers[i];
        let mut e: Vec<(&'static str, String)> = Vec::new();
        e.push(("id", copy_string(&p.id)));
        e.push(("username", copy_string(&p.username)));
        e.push(("hostname", copy_string(&p.hostname)));
        e.push(("platform", copy_string(&p.platform)));
        assert(field_views(e@) =~= peer_fields(peers@[i as int]));
        r.push(e);
        i = i + 1;
    }
    r
}

/// The peers whose identifier is not `id`, in their order.
pub open spec fn without_peer(s: Seq<LanPeer>, id: Seq<char>) -> Seq<LanPeer>
    decreases s.len(),
{
    if s.len() == 0 {
        Seq::empty()
    } else if s.last().id@ == id {
        without_peer(s.drop_last(), id)
    } else {
        without_peer(s.drop_last(), id).push(s.last())
    }
}

/// Forgets the discovered peer `id`.
pub fn remove_discovered(peers: Vec<LanPeer>, id: &str) -> (r: Vec<LanPeer>)
    ensures
        r@ == without_peer(peers@, id@),
{
    let ghost orig = peers@;
    let mut rest = peers;
    let mut r: Vec<LanPeer> = Vec::new();
    let n = rest.len();
    while rest.len() > 0
        invariant
            n == orig.len(),
            rest@.len() <= n,
            rest@ == orig.subrange(n - rest@.len(), n as int),
            r@ == without_peer(orig.subrange(0, n - rest@.len()), id@),
        decreases rest@.len(),
    {
        let ghost k = n - rest@.len();
        let p = rest.remove(0);
        assert(orig.subrange(0, k + 1).drop_last() =~= orig.subrange(0, k));
        assert(p == orig[k]);
        assert(rest@ =~= orig.subrange(k + 1, n as int));
        if !str_eq(p.id.as_str(), id) {
            r.push(p);
        }
    }
    assert(orig.subrange(0, n as int) =~= orig);
    r
}


/// Whether the stored two-factor setting is usable (see `get_2fa`).
pub fn has_valid_2fa(parsed: Option<TOTPInfo>, secret: Vec<u8>, success: bool) -> (r: bool)
    ensures
        r == usable_2fa(parsed, secret@, success),
{
    get_2fa(parsed, secret, success).is_some()
}

/// Name of the Wayland display server.
pub const DISPLAY_SERVER_WAYLAND: &'static str = "wayland";

/// Name of the X11 display server.
pub const DISPLAY_SERVER_X11: &'static str = "x11";

/// The error shown for the display server `dtype`: the Wayland error under Wayland, a message
/// naming any server other than X11 (built from the translated `unsupported` and
/// `x11_expected` phrases), and nothing under X11.
pub fn get_error(dtype: &str, wayland_error: String, unsupported: &str, x11_expected: &str) -> (r:
    String)
    ensures
        r@ == (if dtype@ == DISPLAY_SERVER_WAYLAND@ {
            wayland_error@
        } else if dtype@ != DISPLAY_SERVER_X11@ {
            unsupported@ + seq![' '] + dtype@ + seq![',', ' '] + x11_expected@
        } else {
            Seq::empty()
        }),
{
    if str_eq(dtype, DISPLAY_SERVER_WAYLAND) {
        return wayland_error;
    }
    if !str_eq(dtype, DISPLAY_SERVER_X11) {
        proof {
            reveal_strlit(" ");
            reveal_strlit(", ");
            assert(" "@ =~= seq![' ']);
            assert(", "@ =~= seq![',', ' ']);
        }
        let mut out = String::from_str(unsupported);
        out.append(" ");
        out.append(dtype);
        out.append(", ");
        out.append(x11_expected);
        return out;
    }
    String::new()
}

/// Rendering through textures is not used.
pub fn use_texture_render() -> (r: bool)
    ensures
        !r,
{
    false
}

/// There is no install path to report on this platform.
pub fn install_path() -> (r: String)
    ensures
        r@.len() == 0,
{
    String::new()
}

/// Sharing remote desktop sessions is a Windows feature; here it is off.
pub fn is_share_rdp() -> (r: bool)
    ensures
        !r,
{
    false
}

/// An installed older version is only detected on Windows.
pub fn is_installed_lower_version() -> (r: bool)
    ensures
        !r,
{
    false
}

/// The process needs no accessibility trust on this platform.
pub fn is_process_trusted(prompt: bool) -> (r: bool)
    ensures
        r,
{
    true
}

/// Screen recording needs no permission on this platform.
pub fn is_can_screen_recording(prompt: bool) -> (r: bool)
    ensures
        r,
{
    true
}

/// No hardware codec is built in.
pub fn has_hwcodec() -> (r: bool)
    ensures
        !r,
{
    false
}

/// No video-memory codec is built in.
pub fn has_vram() -> (r: bool)
    ensures
        !r,
{
    false
}


/// Forgetting a discovered peer removes every entry with its identifier and keeps every other
/// entry.
pub proof fn lemma_remove_discovered(s: Seq<LanPeer>, id: Seq<char>)
    ensures
        forall|i: int| 0 <= i < without_peer(s, id).len() ==> #[trigger] without_peer(s, id)[i].id@
            != id,
        forall|i: int| 0 <= i < s.len() && s[i].id@ != id ==> without_peer(s, id).contains(
            #[trigger] s[i],
        ),
        without_peer(s, id).len() <= s.len(),
    decreases s.len(),
{
    if s.len() > 0 {
        let d = s.drop_last();
        lemma_remove_discovered(d, id);
        let w = without_peer(d, id);
        assert forall|i: int| 0 <= i < s.len() && s[i].id@ != id implies without_peer(
            s,
            id,
        ).contains(#[trigger] s[i]) by {
            if i < d.len() {
                assert(d[i] == s[i]);
                let k = choose|k: int| 0 <= k < w.len() && w[k] == d[i];
                if s.last().id@ != id {
                    assert(w.push(s.last())[k] == s[i]);
                }
            } else {
                assert(without_peer(s, id) == w.push(s.last()));
                assert(w.push(s.last())[w.len() as int] == s[i]);
            }
        }
    }
}

/// A positive online state is shown as 1, any other state as it is: the shown state is never
/// above 1.
pub proof fn lemma_shown_online_state(x: i64)
    requires
        x >= i32::MIN,
    ensures
        shown_online_state(x) <= 1,
        x > 0 ==> shown_online_state(x) == 1,
        x <= 0 ==> shown_online_state(x) == x,
{
    if x <= 0 {
        assert(x as i32 == x) by (bit_vector)
            requires
                x <= 0 && x >= -2147483648i64,
        ;
    }
}


/// Whether to offer running without installing: the program was started as the setup program
/// (`first_is_setup` tells it of `args[0]`) with no further argument.
pub fn show_run_without_install(args: &Vec<String>, first_is_setup: bool) -> (r: bool)
    ensures
        r == (args@.len() > 0 && first_is_setup && args@.len() == 1),
{
    if args.len() > 0 {
        if first_is_setup {
            return args.len() == 1;
        }
    }
    false
}

/// The status recorded for the asynchronous request to `url`, if any.
pub fn get_async_http_status(statuses: &OptionStore, url: &str) -> (r: Option<String>)
    ensures
        match r {
            Some(v) => statuses.view().contains_key(url@) && v@ == statuses.view()[url@],
            None => !statuses.view().contains_key(url@),
        },
{
    if statuses.contains_key(url) {
        Some(statuses.get_option(url))
    } else {
        None
    }
}

} // verus!
