//! The host server's registry of services and connections: which connection is subscribed to
//! which service, and the identifiers handed to new connections.
use vstd::prelude::*;
use crate::text::{decimal_digits, decimal_string, has_prefix, str_starts_with};
use crate::platform::linux::{name_seq, str_eq, string_views};

pub mod clipboard_service;

verus! {

/// Kind of video capture a video service serves.
#[derive(Clone, Copy, Debug)]
pub enum VideoSource {
    Monitor,
    Camera,
}

/// Index of the primary camera.
pub const PRIMARY_CAMERA_IDX: usize = 0;

pub open spec fn source_prefix(source: VideoSource) -> Seq<char> {
    match source {
        VideoSource::Monitor => "monitor"@,
        VideoSource::Camera => "camera"@,
    }
}

/// Name of the video service for capture source `idx` of the given kind.
pub open spec fn service_name_spec(source: VideoSource, idx: nat) -> Seq<char> {
    source_prefix(source) + decimal_digits(idx)
}

/// The service serves video: its name starts with a video-source prefix.
pub open spec fn is_video_name(name: Seq<char>) -> bool {
    has_prefix(name, "monitor"@) || has_prefix(name, "camera"@)
}

/// Prefix of the names of the video services of this kind.
pub fn service_name_prefix(source: VideoSource) -> (r: &'static str)
    ensures
        r@ == source_prefix(source),
{
    match source {
        VideoSource::Monitor => "monitor",
        VideoSource::Camera => "camera",
    }
}

/// Name of the video service for capture source `idx` of the given kind.
pub fn get_service_name(source: VideoSource, idx: usize) -> (r: String)
    ensures
        r@ == service_name_spec(source, idx as nat),
{
    let mut s = String::from_str(service_name_prefix(source));
    let digits = decimal_string(idx);
    s.append(digits.as_str());
    s
}

/// Whether the named service is a video service.
pub fn is_video_service_name(name: &str) -> (r: bool)
    ensures
        r == is_video_name(name@),
{
    str_starts_with(name, "monitor") || str_starts_with(name, "camera")
}

/// The services a server starts with.
#[derive(Clone, Copy, Debug)]
pub enum InitialService {
    Display,
    Clipboard,
    Cursor,
    Position,
    WindowFocus,
}

/// The services of a new server: display and clipboard, plus (when the cursor is not embedded
/// in the captured video) cursor and position, and window focus on X11.
pub fn initial_services(capture_cursor_embedded: bool, is_x11: bool) -> (r: Vec<InitialService>)
    ensures
        r@ == (if capture_cursor_embedded {
            seq![InitialService::Display, InitialService::Clipboard]
        } else if is_x11 {
            seq![
                InitialService::Display,
                InitialService::Clipboard,
                InitialService::Cursor,
                InitialService::Position,
                InitialService::WindowFocus,
            ]
        } else {
            seq![
                InitialService::Display,
                InitialService::Clipboard,
                InitialService::Cursor,
                InitialService::Position,
            ]
        }),
{
    let mut v = Vec::new();
    v.push(InitialService::Display);
    v.push(InitialService::Clipboard);
    if !capture_cursor_embedded {
        v.push(InitialService::Cursor);
        v.push(InitialService::Position);
        if is_x11 {
            v.push(InitialService::WindowFocus);
        }
    }
    v
}

/// The registry: the connections, the services by name with the connections subscribed to
/// each, and the last connection identifier handed out.
///
/// Services are kept in parallel vectors of names and subscriber lists, with distinct names as
/// the invariant, rather than in a map keyed by `String`: vstd gives maps keyed by strings
/// too little to prove what registering, looking up and removing do. Connections and
/// subscribers are lists whose element sets are what the contracts speak of.
pub struct Server {
    connections: Vec<i32>,
    names: Vec<String>,
    subs: Vec<Vec<i32>>,
    id_count: i32,
}

/// Set of the elements of a sequence.
pub open spec fn elems(s: Seq<i32>) -> Set<i32> {
    Set::new(|c: i32| s.contains(c))
}

impl Server {
    /// Service names are unique and each has a subscriber list.
    pub closed spec fn wf(&self) -> bool {
        &&& self.names@.len() == self.subs@.len()
        &&& forall|i: int, j: int|
            0 <= i < j < self.names@.len() ==> self.names@[i]@ != self.names@[j]@
    }

    /// Names of the registered services, in registration order.
    pub closed spec fn service_names(&self) -> Seq<Seq<char>> {
        self.names@.map_values(|s: String| s@)
    }

    /// A service of this name is registered.
    pub open spec fn has_service(&self, name: Seq<char>) -> bool {
        self.service_names().contains(name)
    }

    /// The connections subscribed to the named service (empty when there is none).
    pub closed spec fn subscribers(&self, name: Seq<char>) -> Set<i32> {
        if exists|i: int| 0 <= i < self.names@.len() && self.names@[i]@ == name {
            let i = choose|i: int| 0 <= i < self.names@.len() && self.names@[i]@ == name;
            elems(self.subs@[i]@)
        } else {
            Set::empty()
        }
    }

    /// The registered connections.
    pub closed spec fn connections(&self) -> Set<i32> {
        elems(self.connections@)
    }

    /// The last identifier handed out.
    pub closed spec fn id_count(&self) -> i32 {
        self.id_count
    }

    proof fn lemma_subscribers_at(&self, i: int)
        requires
            self.wf(),
            0 <= i < self.names@.len(),
        ensures
            self.subscribers(self.names@[i]@) == elems(self.subs@[i]@),
            self.has_service(self.names@[i]@),
    {
        let name = self.names@[i]@;
        let j = choose|j: int| 0 <= j < self.names@.len() && self.names@[j]@ == name;
        assert(j == i);
        assert(self.service_names()[i] == name);
    }

    proof fn lemma_has_service(&self, name: Seq<char>)
        requires
            self.wf(),
        ensures
            self.has_service(name) <==> exists|i: int|
                0 <= i < self.names@.len() && self.names@[i]@ == name,
    {
        if self.has_service(name) {
            let k = choose|k: int| 0 <= k < self.service_names().len() && self.service_names()[k] == name;
            assert(self.names@[k]@ == name);
        }
        if exists|i: int| 0 <= i < self.names@.len() && self.names@[i]@ == name {
            let i = choose|i: int| 0 <= i < self.names@.len() && self.names@[i]@ == name;
            assert(self.service_names()[i] == name);
        }
    }

    /// Two registries in which the name `n` stands at the same places, with the same
    /// subscribers there, give `n` the same subscribers.
    proof fn lemma_same_subscribers(&self, other: Server, n: Seq<char>)
        requires
            self.wf(),
            other.wf(),
            forall|k: int|
                0 <= k < self.names@.len() && self.names@[k]@ == n ==> k < other.names@.len()
                    && other.names@[k]@ == n && other.subs@[k] == self.subs@[k],
            forall|k: int|
                0 <= k < other.names@.len() && other.names@[k]@ == n ==> k < self.names@.len()
                    && self.names@[k]@ == n,
        ensures
            self.subscribers(n) == other.subscribers(n),
    {
        if exists|k: int| 0 <= k < self.names@.len() && self.names@[k]@ == n {
            let k = choose|k: int| 0 <= k < self.names@.len() && self.names@[k]@ == n;
            self.lemma_subscribers_at(k);
            other.lemma_subscribers_at(k);
        } else {
            self.lemma_no_service(n);
            other.lemma_no_service(n);
        }
    }

    proof fn lemma_no_service(&self, n: Seq<char>)
        requires
            self.wf(),
            forall|k: int| 0 <= k < self.names@.len() ==> self.names@[k]@ != n,
        ensures
            self.subscribers(n) == Set::<i32>::empty(),
            !self.has_service(n),
    {
        self.lemma_has_service(n);
    }

    /// Index of the named service.
    fn find_service(&self, name: &str) -> (r: Option<usize>)
        requires
            self.wf(),
        ensures
            match r {
                Some(i) => i < self.names@.len() && self.names@[i as int]@ == name@,
                None => forall|k: int| 0 <= k < self.names@.len() ==> self.names@[k]@ != name@,
            },
    {
        let mut i: usize = 0;
        while i < self.names.len()
            invariant
                i <= self.names@.len(),
                forall|k: int| 0 <= k < i ==> self.names@[k]@ != name@,
            decreases self.names@.len() - i,
        {
            if str_eq(self.names[i].as_str(), name) {
                return Some(i);
            }
            i = i + 1;
        }
        None
    }

    /// Replaces the subscriber list of service `i`.
    fn update_subs(&mut self, i: usize, list: Vec<i32>)
        requires
            old(self).wf(),
            i < old(self).names@.len(),
        ensures
            final(self).wf(),
            final(self).names@ == old(self).names@,
            final(self).subs@ == old(self).subs@.update(i as int, list),
            final(self).connections@ == old(self).connections@,
            final(self).service_names() == old(self).service_names(),
            final(self).connections() == old(self).connections(),
            final(self).id_count() == old(self).id_count(),
            final(self).subscribers(old(self).names@[i as int]@) == elems(list@),
            forall|n: Seq<char>|
                n != old(self).names@[i as int]@ ==> #[trigger] final(self).subscribers(n)
                    == old(self).subscribers(n),
    {
        let ghost pre = *self;
        self.subs.set(i, list);
        proof {
            self.lemma_subscribers_at(i as int);
            assert forall|n: Seq<char>| n != pre.names@[i as int]@ implies #[trigger] self.subscribers(n)
                == pre.subscribers(n) by {
                self.lemma_same_subscribers(pre, n);
            }
        }
    }

    /// A server without connections or services whose identifiers start after
    /// `random % 1000 + 1000` (always between 1 and 1999).
    pub fn new(random: i32) -> (r: Server)
        ensures
            r.wf(),
            r.service_names() == Seq::<Seq<char>>::empty(),
            r.connections() == Set::<i32>::empty(),
            r.id_count() == (if random >= 0 || random % 1000 == 0 {
                random % 1000 + 1000
            } else {
                (random % 1000) as int
            }),
            0 < r.id_count() < 2000,
    {
        let rem = random % 1000;
        let r = Server {
            connections: Vec::new(),
            names: Vec::new(),
            subs: Vec::new(),
            id_count: rem + 1000,
        };
        assert(r.service_names() =~= Seq::<Seq<char>>::empty());
        assert(r.connections() =~= Set::<i32>::empty());
        r
    }
}



/// What `add_monitor_connection` subscribes the connection to: any service except the video
/// services of other displays and the services the connection has no permission for.
pub open spec fn monitor_subscribes(name: Seq<char>, monitor: Seq<char>, noperms: Seq<Seq<char>>) -> bool {
    &&& !(is_video_name(name) && name != monitor)
    &&& !noperms.contains(name)
}

/// What `set_video_service_opt` sets the option on: video services, restricted to one display
/// when one is given.
pub open spec fn option_target(name: Seq<char>, display: Option<(VideoSource, usize)>) -> bool {
    &&& is_video_name(name)
    &&& display matches Some((source, idx)) ==> name == service_name_spec(source, idx as nat)
}

/// How `capture_displays` changes one service's subscribers.
pub open spec fn captured(
    name: Seq<char>,
    subs: Set<i32>,
    conn: i32,
    wanted: Seq<Seq<char>>,
    sub_wanted: bool,
    unsub_others: bool,
) -> Set<i32> {
    if !is_video_name(name) {
        subs
    } else if wanted.contains(name) {
        if sub_wanted {
            subs.insert(conn)
        } else {
            subs
        }
    } else if unsub_others {
        subs.remove(conn)
    } else {
        subs
    }
}

impl Server {
    /// Whether a service of this name is registered.
    pub fn contains(&self, name: &str) -> (r: bool)
        requires
            self.wf(),
        ensures
            r == self.has_service(name@),
    {
        proof {
            self.lemma_has_service(name@);
        }
        self.find_service(name).is_some()
    }

    /// Registers a service under `name`, replacing (with no subscribers) any service of that
    /// name.
    pub fn add_service(&mut self, name: String)
        requires
            old(self).wf(),
        ensures
            final(self).wf(),
            final(self).service_names() == (if old(self).has_service(name@) {
                old(self).service_names()
            } else {
                old(self).service_names().push(name@)
            }),
            final(self).subscribers(name@) == Set::<i32>::empty(),
            forall|n: Seq<char>|
                n != name@ ==> #[trigger] final(self).subscribers(n) == old(self).subscribers(n),
            final(self).connections() == old(self).connections(),
            final(self).id_count() == old(self).id_count(),
    {
        proof {
            self.lemma_has_service(name@);
        }
        match self.find_service(name.as_str()) {
            Some(i) => {
                self.update_subs(i, Vec::new());
                assert(elems(Seq::<i32>::empty()) =~= Set::<i32>::empty());
            },
            None => {
                let ghost pre = *self;
                self.names.push(name);
                self.subs.push(Vec::new());
                proof {
                    assert(self.service_names() =~= pre.service_names().push(self.names@.last()@));
                    let k = self.names@.len() - 1;
                    self.lemma_subscribers_at(k);
                    assert(elems(self.subs@[k]@) =~= Set::<i32>::empty());
                    assert forall|n: Seq<char>| n != self.names@[k]@ implies #[trigger] self.subscribers(n)
                        == pre.subscribers(n) by {
                        self.lemma_same_subscribers(pre, n);
                    }
                }
            },
        }
    }

    /// Hands out a new connection identifier, one more than the last.
    pub fn get_new_id(&mut self) -> (r: i32)
        requires
            old(self).id_count() < i32::MAX,
        ensures
            get_new_id_post(*old(self), *final(self), r),
    {
        self.id_count = self.id_count + 1;
        self.id_count
    }

    /// (Un)subscribes the connection to the named service when its subscription differs from
    /// `sub`; returns whether it changed (the service is then told).
    pub fn subscribe(&mut self, name: &str, conn: i32, sub: bool) -> (r: bool)
        requires
            old(self).wf(),
        ensures
            subscribe_post(*old(self), *final(self), name@, conn, sub, r),
    {
        proof {
            self.lemma_has_service(name@);
        }
        match self.find_service(name) {
            None => {
                proof {
                    self.lemma_no_service(name@);
                }
                false
            },
            Some(i) => {
                proof {
                    self.lemma_subscribers_at(i as int);
                }
                if list_contains(&self.subs[i], conn) == sub {
                    proof {
                        if sub {
                            assert(self.subscribers(name@).insert(conn) =~= self.subscribers(name@));
                        } else {
                            assert(self.subscribers(name@).remove(conn) =~= self.subscribers(name@));
                        }
                    }
                    return false;
                }
                let list = list_with(&self.subs[i], conn, sub);
                self.update_subs(i, list);
                true
            },
        }
    }

    /// Registers the connection of a camera session and, when the primary camera exists and its
    /// service is registered, subscribes the connection to it (returning whether it did).
    pub fn add_camera_connection(&mut self, conn: i32, primary_camera_exists: bool) -> (r: bool)
        requires
            old(self).wf(),
        ensures
            final(self).wf(),
            final(self).service_names() == old(self).service_names(),
            final(self).connections() == old(self).connections().insert(conn),
            final(self).id_count() == old(self).id_count(),
            ({
                let cam = service_name_spec(VideoSource::Camera, PRIMARY_CAMERA_IDX as nat);
                &&& r == (primary_camera_exists && old(self).has_service(cam))
                &&& final(self).subscribers(cam) == (if r {
                    old(self).subscribers(cam).insert(conn)
                } else {
                    old(self).subscribers(cam)
                })
                &&& forall|n: Seq<char>|
                    n != cam ==> #[trigger] final(self).subscribers(n) == old(self).subscribers(n)
            }),
    {
        let mut r = false;
        let cam = get_service_name(VideoSource::Camera, PRIMARY_CAMERA_IDX);
        let ghost pre = *self;
        proof {
            self.lemma_has_service(cam@);
        }
        if primary_camera_exists {
            match self.find_service(cam.as_str()) {
                Some(i) => {
                    proof {
                        self.lemma_subscribers_at(i as int);
                    }
                    let list = list_with(&self.subs[i], conn, true);
                    self.update_subs(i, list);
                    r = true;
                },
                None => {},
            }
        }
        let list = list_with(&self.connections, conn, true);
        self.connections = list;
        proof {
            if !r {
                assert(self.subs@ == pre.subs@);
                assert(self.names@ == pre.names@);
                assert forall|n: Seq<char>| #[trigger] self.subscribers(n) == pre.subscribers(n) by {}
                if primary_camera_exists {
                    assert(!pre.has_service(cam@));
                }
            }
        }
        r
    }

    /// Registers the connection of a monitor session on display `display_idx` and subscribes it
    /// to every service except the video services of other displays and those named in
    /// `noperms`; returns the names of the services it was subscribed to.
    pub fn add_monitor_connection(&mut self, conn: i32, noperms: &[&str], display_idx: usize) -> (r:
        Vec<String>)
        requires
            old(self).wf(),
        ensures
            final(self).wf(),
            final(self).service_names() == old(self).service_names(),
            final(self).connections() == old(self).connections().insert(conn),
            final(self).id_count() == old(self).id_count(),
            ({
                let monitor = service_name_spec(VideoSource::Monitor, display_idx as nat);
                let np = name_seq(noperms@);
                &&& forall|n: Seq<char>| #[trigger]
                    final(self).subscribers(n) == (if old(self).has_service(n)
                        && monitor_subscribes(n, monitor, np) {
                        old(self).subscribers(n).insert(conn)
                    } else {
                        old(self).subscribers(n)
                    })
                &&& forall|n: Seq<char>|
                    #[trigger] string_views(r@).contains(n) <==> (old(self).has_service(n)
                        && monitor_subscribes(n, monitor, np))
            }),
    {
        let monitor = get_service_name(VideoSource::Monitor, display_idx);
        let ghost np = name_seq(noperms@);
        let ghost pre = *self;
        let mut r: Vec<String> = Vec::new();
        let mut i: usize = 0;
        while i < self.names.len()
            invariant
                self.wf(),
                self.names@ == pre.names@,
                self.connections@ == pre.connections@,
                self.id_count == pre.id_count,
                self.subs@.len() == pre.subs@.len(),
                pre.wf(),
                i <= self.names@.len(),
                np == name_seq(noperms@),
                forall|k: int|
                    0 <= k < self.names@.len() ==> #[trigger] elems(self.subs@[k]@) == (if k < i
                        && monitor_subscribes(self.names@[k]@, monitor@, np) {
                        elems(pre.subs@[k]@).insert(conn)
                    } else {
                        elems(pre.subs@[k]@)
                    }),
                forall|n: Seq<char>|
                    #[trigger] string_views(r@).contains(n) <==> (exists|k: int|
                        0 <= k < i && self.names@[k]@ == n && monitor_subscribes(n, monitor@, np)),
            decreases self.names@.len() - i,
        {
            let name = self.names[i].clone();
            let other_video = is_video_service_name(name.as_str()) && !str_eq(name.as_str(), monitor.as_str());
            let ghost old_r = string_views(r@);
            let ghost before = self.subs@;
            if !other_video && !str_slice_contains(noperms, name.as_str()) {
                let list = list_with(&self.subs[i], conn, true);
                self.update_subs(i, list);
                r.push(name);
                assert(string_views(r@) =~= old_r.push(self.names@[i as int]@));
            }
            proof {
                assert forall|k: int|
                    0 <= k < self.names@.len() implies #[trigger] elems(self.subs@[k]@) == (if k < i + 1
                        && monitor_subscribes(self.names@[k]@, monitor@, np) {
                        elems(pre.subs@[k]@).insert(conn)
                    } else {
                        elems(pre.subs@[k]@)
                    }) by {
                    if k != i {
                        assert(self.subs@[k] == before[k]);
                    }
                }
                assert forall|n: Seq<char>|
                    #[trigger] string_views(r@).contains(n) <==> (exists|k: int|
                        0 <= k < i + 1 && self.names@[k]@ == n && monitor_subscribes(n, monitor@, np)) by {
                    vstd::seq_lib::lemma_seq_contains_after_push(old_r, self.names@[i as int]@, n);
                    if exists|k: int| 0 <= k < i + 1 && self.names@[k]@ == n && monitor_subscribes(n, monitor@, np) {
                        let k = choose|k: int| 0 <= k < i + 1 && self.names@[k]@ == n && monitor_subscribes(n, monitor@, np);
                        if k < i {
                            assert(exists|k: int| 0 <= k < i && self.names@[k]@ == n && monitor_subscribes(n, monitor@, np));
                        }
                    }
                }
            }
            i = i + 1;
        }
        let list = list_with(&self.connections, conn, true);
        self.connections = list;
        proof {
            assert forall|n: Seq<char>| #[trigger]
                self.subscribers(n) == (if pre.has_service(n)
                    && monitor_subscribes(n, monitor@, np) {
                    pre.subscribers(n).insert(conn)
                } else {
                    pre.subscribers(n)
                }) by {
                pre.lemma_has_service(n);
                if exists|k: int| 0 <= k < self.names@.len() && self.names@[k]@ == n {
                    let k = choose|k: int| 0 <= k < self.names@.len() && self.names@[k]@ == n;
                    self.lemma_subscribers_at(k);
                    pre.lemma_subscribers_at(k);
                } else {
                    self.lemma_no_service(n);
                    pre.lemma_no_service(n);
                }
            }
            assert forall|n: Seq<char>|
                #[trigger] string_views(r@).contains(n) <==> (pre.has_service(n)
                    && monitor_subscribes(n, monitor@, np)) by {
                pre.lemma_has_service(n);
            }
            assert(self.service_names() =~= pre.service_names());
        }
        r
    }
}

/// The effect of `subscribe`: when the named service exists and the connection's subscription
/// differs from `sub`, it is changed and `r` is true; nothing else changes.
pub open spec fn subscribe_post(pre: Server, post: Server, name: Seq<char>, conn: i32, sub: bool, r: bool) -> bool {
    &&& post.wf()
    &&& post.service_names() == pre.service_names()
    &&& post.connections() == pre.connections()
    &&& post.id_count() == pre.id_count()
    &&& r == (pre.has_service(name) && pre.subscribers(name).contains(conn) != sub)
    &&& post.subscribers(name) == (if !pre.has_service(name) {
        pre.subscribers(name)
    } else if sub {
        pre.subscribers(name).insert(conn)
    } else {
        pre.subscribers(name).remove(conn)
    })
    &&& forall|n: Seq<char>| n != name ==> #[trigger] post.subscribers(n) == pre.subscribers(n)
}

/// The effect of `get_new_id`: the identifier is one more than the last, and becomes the last.
pub open spec fn get_new_id_post(pre: Server, post: Server, r: i32) -> bool {
    &&& r == pre.id_count() + 1
    &&& post.id_count() == r
    &&& post.wf() == pre.wf()
    &&& post.service_names() == pre.service_names()
    &&& post.connections() == pre.connections()
    &&& forall|n: Seq<char>| #[trigger] post.subscribers(n) == pre.subscribers(n)
}

/// Identifiers handed out one after another are distinct and increasing.
pub proof fn lemma_new_ids_increase(s0: Server, s1: Server, s2: Server, a: i32, b: i32)
    requires
        get_new_id_post(s0, s1, a),
        get_new_id_post(s1, s2, b),
    ensures
        a < b,
        a != b,
{
}

/// Subscribing twice in the same way changes nothing the second time.
pub proof fn lemma_subscribe_idempotent(
    s0: Server,
    s1: Server,
    s2: Server,
    name: Seq<char>,
    conn: i32,
    sub: bool,
    r1: bool,
    r2: bool,
)
    requires
        subscribe_post(s0, s1, name, conn, sub, r1),
        subscribe_post(s1, s2, name, conn, sub, r2),
    ensures
        !r2,
        forall|n: Seq<char>| #[trigger] s2.subscribers(n) == s1.subscribers(n),
{
    assert(s1.service_names() == s0.service_names());
    if s0.has_service(name) {
        if sub {
            assert(s2.subscribers(name) =~= s1.subscribers(name));
        } else {
            assert(s2.subscribers(name) =~= s1.subscribers(name));
        }
    }
}

/// A removed connection is registered nowhere and subscribed to no service.
pub proof fn lemma_removed_connection_gone(pre: Server, post: Server, conn: i32)
    requires
        remove_connection_post(pre, post, conn),
    ensures
        !post.connections().contains(conn),
        forall|n: Seq<char>| !(#[trigger] post.subscribers(n)).contains(conn),
{
}

/// The effect of `remove_connection`: the connection is unsubscribed from every service and
/// unregistered.
pub open spec fn remove_connection_post(pre: Server, post: Server, conn: i32) -> bool {
    &&& post.wf()
    &&& post.service_names() == pre.service_names()
    &&& post.connections() == pre.connections().remove(conn)
    &&& post.id_count() == pre.id_count()
    &&& forall|n: Seq<char>| #[trigger] post.subscribers(n) == pre.subscribers(n).remove(conn)
}

/// Names of the video services for the given capture sources.
pub open spec fn wanted_names(source: VideoSource, displays: Seq<usize>) -> Seq<Seq<char>> {
    displays.map_values(|d: usize| service_name_spec(source, d as nat))
}

/// The (name, subscribed) pairs as character sequences.
pub open spec fn change_views(r: Seq<(String, bool)>) -> Seq<(Seq<char>, bool)> {
    r.map_values(|p: (String, bool)| (p.0@, p.1))
}

/// Names of the video services for the given capture sources.
pub fn display_service_names(source: VideoSource, displays: &[usize]) -> (r: Vec<String>)
    ensures
        string_views(r@) == wanted_names(source, displays@),
{
    let mut r: Vec<String> = Vec::new();
    let mut i: usize = 0;
    while i < displays.len()
        invariant
            i <= displays@.len(),
            string_views(r@) == wanted_names(source, displays@.take(i as int)),
        decreases displays@.len() - i,
    {
        let name = get_service_name(source, displays[i]);
        let ghost old_r = r@;
        r.push(name);
        assert(displays@.take(i + 1) =~= displays@.take(i as int).push(displays@[i as int]));
        assert(string_views(r@) =~= string_views(old_r).push(name@));
        assert(wanted_names(source, displays@.take(i + 1)) =~= wanted_names(source, displays@.take(i as int)).push(
            service_name_spec(source, displays@[i as int] as nat),
        ));
        i = i + 1;
    }
    assert(displays@.take(displays@.len() as int) =~= displays@);
    r
}

fn string_list_contains(v: &Vec<String>, s: &str) -> (r: bool)
    ensures
        r == string_views(v@).contains(s@),
{
    let mut i: usize = 0;
    while i < v.len()
        invariant
            i <= v@.len(),
            forall|k: int| 0 <= k < i ==> v@[k]@ != s@,
        decreases v@.len() - i,
    {
        if str_eq(v[i].as_str(), s) {
            assert(string_views(v@)[i as int] == s@);
            return true;
        }
        i = i + 1;
    }
    assert forall|k: int| 0 <= k < string_views(v@).len() implies string_views(v@)[k] != s@ by {}
    false
}

impl Server {
    proof fn lemma_subscribers_from_index(&self, pre: Server, n: Seq<char>)
        requires
            self.wf(),
            pre.wf(),
            self.names@ == pre.names@,
        ensures
            pre.has_service(n) == self.has_service(n),
            forall|k: int|
                0 <= k < self.names@.len() && self.names@[k]@ == n ==> self.subscribers(n) == elems(
                    self.subs@[k]@,
                ) && pre.subscribers(n) == elems(pre.subs@[k]@),
            !self.has_service(n) ==> self.subscribers(n) == Set::<i32>::empty()
                && pre.subscribers(n) == Set::<i32>::empty(),
    {
        pre.lemma_has_service(n);
        self.lemma_has_service(n);
        assert forall|k: int|
            0 <= k < self.names@.len() && self.names@[k]@ == n implies self.subscribers(n) == elems(
            self.subs@[k]@,
        ) && pre.subscribers(n) == elems(pre.subs@[k]@) by {
            self.lemma_subscribers_at(k);
            pre.lemma_subscribers_at(k);
        }
        if !self.has_service(n) {
            self.lemma_no_service(n);
            pre.lemma_no_service(n);
        }
    }

    /// Unsubscribes the connection from every service and unregisters it.
    pub fn remove_connection(&mut self, conn: i32)
        requires
            old(self).wf(),
        ensures
            remove_connection_post(*old(self), *final(self), conn),
    {
        let ghost pre = *self;
        let mut i: usize = 0;
        while i < self.names.len()
            invariant
                self.wf(),
                pre.wf(),
                self.names@ == pre.names@,
                self.connections@ == pre.connections@,
                self.id_count == pre.id_count,
                i <= self.names@.len(),
                forall|k: int|
                    0 <= k < self.names@.len() ==> #[trigger] elems(self.subs@[k]@) == (if k < i {
                        elems(pre.subs@[k]@).remove(conn)
                    } else {
                        elems(pre.subs@[k]@)
                    }),
            decreases self.names@.len() - i,
        {
            let ghost before = self.subs@;
            let list = list_with(&self.subs[i], conn, false);
            self.update_subs(i, list);
            assert forall|k: int| 0 <= k < self.names@.len() && k != i implies self.subs@[k] == before[k] by {}
            i = i + 1;
        }
        let list = list_with(&self.connections, conn, false);
        self.connections = list;
        proof {
            assert forall|n: Seq<char>| #[trigger] self.subscribers(n) == pre.subscribers(n).remove(conn) by {
                self.lemma_subscribers_from_index(pre, n);
                if self.has_service(n) {
                    self.lemma_has_service(n);
                } else {
                    assert(Set::<i32>::empty().remove(conn) =~= Set::<i32>::empty());
                }
            }
            assert(self.service_names() =~= pre.service_names());
        }
    }

    /// The registered connections, each to be told that the service stops.
    pub fn close_connections(&self) -> (r: Vec<i32>)
        ensures
            elems(r@) == self.connections(),
    {
        let mut r: Vec<i32> = Vec::new();
        let mut i: usize = 0;
        while i < self.connections.len()
            invariant
                i <= self.connections@.len(),
                r@ == self.connections@.take(i as int),
            decreases self.connections@.len() - i,
        {
            r.push(self.connections[i]);
            assert(r@ =~= self.connections@.take(i + 1));
            i = i + 1;
        }
        assert(self.connections@.take(self.connections@.len() as int) =~= self.connections@);
        r
    }

    /// Names of the services an option is set on: the video services, or only the one of the
    /// given display.
    pub fn set_video_service_opt(&self, display: Option<(VideoSource, usize)>) -> (r: Vec<String>)
        requires
            self.wf(),
        ensures
            forall|n: Seq<char>|
                #[trigger] string_views(r@).contains(n) <==> (self.has_service(n) && option_target(
                    n,
                    display,
                )),
    {
        let target: Option<String> = match display {
            Some((source, d)) => Some(get_service_name(source, d)),
            None => None,
        };
        let mut r: Vec<String> = Vec::new();
        let mut i: usize = 0;
        while i < self.names.len()
            invariant
                self.wf(),
                i <= self.names@.len(),
                target matches Some(t) ==> display matches Some((source, d)) && t@ == service_name_spec(source, d as nat),
                target is None ==> display is None,
                forall|n: Seq<char>|
                    #[trigger] string_views(r@).contains(n) <==> (exists|k: int|
                        0 <= k < i && self.names@[k]@ == n && option_target(n, display)),
            decreases self.names@.len() - i,
        {
            let name = &self.names[i];
            let on_display = match &target {
                Some(t) => str_eq(name.as_str(), t.as_str()),
                None => true,
            };
            let ghost old_r = string_views(r@);
            if on_display && is_video_service_name(name.as_str()) {
                r.push(name.clone());
                assert(string_views(r@) =~= old_r.push(self.names@[i as int]@));
            }
            proof {
                assert forall|n: Seq<char>|
                    #[trigger] string_views(r@).contains(n) <==> (exists|k: int|
                        0 <= k < i + 1 && self.names@[k]@ == n && option_target(n, display)) by {
                    vstd::seq_lib::lemma_seq_contains_after_push(old_r, self.names@[i as int]@, n);
                    if exists|k: int| 0 <= k < i + 1 && self.names@[k]@ == n && option_target(n, display) {
                        let k = choose|k: int| 0 <= k < i + 1 && self.names@[k]@ == n && option_target(n, display);
                        if k < i {
                            assert(exists|k: int| 0 <= k < i && self.names@[k]@ == n && option_target(n, display));
                        }
                    }
                }
            }
            i = i + 1;
        }
        proof {
            assert forall|n: Seq<char>|
                #[trigger] string_views(r@).contains(n) <==> (self.has_service(n) && option_target(
                    n,
                    display,
                )) by {
                self.lemma_has_service(n);
            }
        }
        r
    }

    /// Whether the connection watches the named video service.
    pub open spec fn watches_video(&self, conn: i32) -> spec_fn(Seq<char>) -> bool {
        |n: Seq<char>| is_video_name(n) && self.subscribers(n).contains(conn)
    }

    /// How many video services the connection is subscribed to.
    pub fn get_subbed_displays_count(&self, conn: i32) -> (r: usize)
        requires
            self.wf(),
        ensures
            r == self.service_names().filter(self.watches_video(conn)).len(),
    {
        let ghost names = self.service_names();
        let ghost pred = self.watches_video(conn);
        let mut count: usize = 0;
        let mut i: usize = 0;
        while i < self.names.len()
            invariant
                self.wf(),
                names == self.service_names(),
                pred == self.watches_video(conn),
                i <= self.names@.len(),
                count == names.take(i as int).filter(pred).len(),
                count <= i,
            decreases self.names@.len() - i,
        {
            proof {
                self.lemma_subscribers_at(i as int);
                assert(names.take(i + 1) =~= names.take(i as int).push(names[i as int]));
                names.take(i as int).lemma_filter_push(names[i as int], pred);
            }
            if is_video_service_name(self.names[i].as_str()) && list_contains(&self.subs[i], conn) {
                count = count + 1;
            }
            i = i + 1;
        }
        assert(names.take(names.len() as int) =~= names);
        count
    }

    fn subscribe_at(&mut self, i: usize, conn: i32, sub: bool) -> (r: bool)
        requires
            old(self).wf(),
            i < old(self).names@.len(),
        ensures
            final(self).wf(),
            final(self).names@ == old(self).names@,
            final(self).connections@ == old(self).connections@,
            final(self).id_count == old(self).id_count,
            final(self).subs@.len() == old(self).subs@.len(),
            forall|k: int|
                0 <= k < old(self).subs@.len() && k != i ==> #[trigger] final(self).subs@[k] == old(
                    self,
                ).subs@[k],
            elems(final(self).subs@[i as int]@) == (if sub {
                elems(old(self).subs@[i as int]@).insert(conn)
            } else {
                elems(old(self).subs@[i as int]@).remove(conn)
            }),
            r == (elems(old(self).subs@[i as int]@).contains(conn) != sub),
    {
        if list_contains(&self.subs[i], conn) == sub {
            proof {
                let e = elems(self.subs@[i as int]@);
                if sub {
                    assert(e.insert(conn) =~= e);
                } else {
                    assert(e.remove(conn) =~= e);
                }
            }
            return false;
        }
        let list = list_with(&self.subs[i], conn, sub);
        self.update_subs(i, list);
        true
    }

    /// Subscribes the connection to the video services of the given capture sources (when
    /// `sub_wanted`) and unsubscribes it from the other video services (when `unsub_others`);
    /// returns each changed subscription with its new state.
    #[verifier::spinoff_prover]
    #[verifier::rlimit(40)]
    pub fn capture_displays(
        &mut self,
        conn: i32,
        source: VideoSource,
        displays: &[usize],
        sub_wanted: bool,
        unsub_others: bool,
    ) -> (r: Vec<(String, bool)>)
        requires
            old(self).wf(),
        ensures
            final(self).wf(),
            final(self).service_names() == old(self).service_names(),
            final(self).connections() == old(self).connections(),
            final(self).id_count() == old(self).id_count(),
            forall|n: Seq<char>| #[trigger]
                final(self).subscribers(n) == (if old(self).has_service(n) {
                    captured(
                        n,
                        old(self).subscribers(n),
                        conn,
                        wanted_names(source, displays@),
                        sub_wanted,
                        unsub_others,
                    )
                } else {
                    old(self).subscribers(n)
                }),
            forall|n: Seq<char>, b: bool| #[trigger]
                change_views(r@).contains((n, b)) <==> (old(self).has_service(n) && old(
                    self,
                ).subscribers(n).contains(conn) != final(self).subscribers(n).contains(conn) && b
                    == final(self).subscribers(n).contains(conn)),
    {
        let ghost pre = *self;
        let ghost w = wanted_names(source, displays@);
        let wanted = display_service_names(source, displays);
        let mut r: Vec<(String, bool)> = Vec::new();
        let mut i: usize = 0;
        while i < self.names.len()
            invariant
                self.wf(),
                pre.wf(),
                self.names@ == pre.names@,
                self.connections@ == pre.connections@,
                self.id_count == pre.id_count,
                self.subs@.len() == pre.subs@.len(),
                string_views(wanted@) == w,
                i <= self.names@.len(),
                forall|k: int|
                    0 <= k < self.names@.len() ==> #[trigger] elems(self.subs@[k]@) == (if k < i {
                        captured(self.names@[k]@, elems(pre.subs@[k]@), conn, w, sub_wanted, unsub_others)
                    } else {
                        elems(pre.subs@[k]@)
                    }),
                forall|n: Seq<char>, b: bool| #[trigger]
                    change_views(r@).contains((n, b)) <==> (exists|k: int|
                        0 <= k < i && self.names@[k]@ == n && elems(pre.subs@[k]@).contains(conn)
                            != elems(self.subs@[k]@).contains(conn) && b == elems(
                            self.subs@[k]@,
                        ).contains(conn)),
            decreases self.names@.len() - i,
        {
            let name = self.names[i].clone();
            let ghost old_r = change_views(r@);
            let ghost before = self.subs@;
            assert(elems(before[i as int]@) == elems(pre.subs@[i as int]@));
            let mut act = false;
            let mut sub = false;
            if is_video_service_name(name.as_str()) {
                if string_list_contains(&wanted, name.as_str()) {
                    if sub_wanted {
                        act = true;
                        sub = true;
                    }
                } else if unsub_others {
                    act = true;
                }
            }
            if act {
                if self.subscribe_at(i, conn, sub) {
                    r.push((name, sub));
                } else {
                    assert(elems(self.subs@[i as int]@).contains(conn) == elems(
                        before[i as int]@,
                    ).contains(conn));
                }
            }
            proof {
                let nm = self.names@[i as int]@;
                assert forall|k: int| 0 <= k < self.names@.len() && k != i implies self.subs@[k] == before[k] by {}
                if change_views(r@) != old_r {
                    assert(change_views(r@) =~= old_r.push(
                        (nm, elems(self.subs@[i as int]@).contains(conn)),
                    ));
                } else {
                    assert(elems(pre.subs@[i as int]@).contains(conn) == elems(
                        self.subs@[i as int]@,
                    ).contains(conn));
                }
                assert forall|n: Seq<char>, b: bool| #[trigger]
                    change_views(r@).contains((n, b)) <==> (exists|k: int|
                        0 <= k < i + 1 && self.names@[k]@ == n && elems(pre.subs@[k]@).contains(conn)
                            != elems(self.subs@[k]@).contains(conn) && b == elems(
                            self.subs@[k]@,
                        ).contains(conn)) by {
                    vstd::seq_lib::lemma_seq_contains_after_push(
                        old_r,
                        (nm, elems(self.subs@[i as int]@).contains(conn)),
                        (n, b),
                    );
                    if exists|k: int|
                        0 <= k < i + 1 && self.names@[k]@ == n && elems(pre.subs@[k]@).contains(conn)
                            != elems(self.subs@[k]@).contains(conn) && b == elems(
                            self.subs@[k]@,
                        ).contains(conn) {
                        let k = choose|k: int|
                            0 <= k < i + 1 && self.names@[k]@ == n && elems(pre.subs@[k]@).contains(
                                conn,
                            ) != elems(self.subs@[k]@).contains(conn) && b == elems(
                                self.subs@[k]@,
                            ).contains(conn);
                        if k < i {
                            assert(self.subs@[k] == before[k]);
                        }
                    }
                    if old_r.contains((n, b)) {
                        let k = choose|k: int|
                            0 <= k < i && self.names@[k]@ == n && elems(pre.subs@[k]@).contains(conn)
                                != elems(before[k]@).contains(conn) && b == elems(
                                before[k]@,
                            ).contains(conn);
                        assert(self.subs@[k] == before[k]);
                    }
                }
            }
            i = i + 1;
        }
        proof {
            assert(self.service_names() =~= pre.service_names());
            assert forall|n: Seq<char>| #[trigger]
                self.subscribers(n) == (if pre.has_service(n) {
                    captured(n, pre.subscribers(n), conn, w, sub_wanted, unsub_others)
                } else {
                    pre.subscribers(n)
                }) by {
                self.lemma_subscribers_from_index(pre, n);
                if self.has_service(n) {
                    self.lemma_has_service(n);
                }
            }
            assert forall|n: Seq<char>, b: bool| #[trigger]
                change_views(r@).contains((n, b)) <==> (pre.has_service(n) && pre.subscribers(
                    n,
                ).contains(conn) != self.subscribers(n).contains(conn) && b == self.subscribers(
                    n,
                ).contains(conn)) by {
                self.lemma_subscribers_from_index(pre, n);
                pre.lemma_has_service(n);
            }
        }
        r
    }

    /// Registers the video service of display `display_idx` unless it exists; returns whether
    /// it was added.
    pub fn try_add_monitor_service(&mut self, display_idx: usize) -> (r: bool)
        requires
            old(self).wf(),
        ensures
            ({
                let name = service_name_spec(VideoSource::Monitor, display_idx as nat);
                &&& r == !old(self).has_service(name)
                &&& final(self).wf()
                &&& final(self).service_names() == (if r {
                    old(self).service_names().push(name)
                } else {
                    old(self).service_names()
                })
                &&& forall|n: Seq<char>| #[trigger] final(self).subscribers(n) == old(self).subscribers(n)
                &&& final(self).connections() == old(self).connections()
                &&& final(self).id_count() == old(self).id_count()
            }),
    {
        let name = get_service_name(VideoSource::Monitor, display_idx);
        if !self.contains(name.as_str()) {
            proof {
                self.lemma_has_service(name@);
                self.lemma_no_service(name@);
            }
            self.add_service(name);
            true
        } else {
            false
        }
    }

    /// Registers the primary camera's video service when the camera exists and the service
    /// does not; returns whether it was added.
    pub fn try_add_primary_camera_service(&mut self, primary_camera_exists: bool) -> (r: bool)
        requires
            old(self).wf(),
        ensures
            ({
                let name = service_name_spec(VideoSource::Camera, PRIMARY_CAMERA_IDX as nat);
                &&& r == (primary_camera_exists && !old(self).has_service(name))
                &&& final(self).wf()
                &&& final(self).service_names() == (if r {
                    old(self).service_names().push(name)
                } else {
                    old(self).service_names()
                })
                &&& forall|n: Seq<char>| #[trigger] final(self).subscribers(n) == old(self).subscribers(n)
                &&& final(self).connections() == old(self).connections()
                &&& final(self).id_count() == old(self).id_count()
            }),
    {
        if !primary_camera_exists {
            return false;
        }
        let name = get_service_name(VideoSource::Camera, PRIMARY_CAMERA_IDX);
        if !self.contains(name.as_str()) {
            proof {
                self.lemma_has_service(name@);
                self.lemma_no_service(name@);
            }
            self.add_service(name);
            true
        } else {
            false
        }
    }
}

/// Whether one of the names equals `s`.
pub fn str_slice_contains(v: &[&str], s: &str) -> (r: bool)
    ensures
        r == name_seq(v@).contains(s@),
{
    let mut i: usize = 0;
    while i < v.len()
        invariant
            i <= v@.len(),
            forall|k: int| 0 <= k < i ==> v@[k]@ != s@,
        decreases v@.len() - i,
    {
        if str_eq(v[i], s) {
            assert(name_seq(v@)[i as int] == s@);
            return true;
        }
        i = i + 1;
    }
    assert forall|k: int| 0 <= k < name_seq(v@).len() implies name_seq(v@)[k] != s@ by {}
    false
}

fn list_contains(v: &Vec<i32>, c: i32) -> (r: bool)
    ensures
        r == v@.contains(c),
{
    let mut i: usize = 0;
    while i < v.len()
        invariant
            i <= v@.len(),
            forall|k: int| 0 <= k < i ==> v@[k] != c,
        decreases v@.len() - i,
    {
        if v[i] == c {
            assert(v@[i as int] == c);
            return true;
        }
        i = i + 1;
    }
    false
}

/// A copy of the list with `c` added (when `add`) or with every `c` removed.
fn list_with(v: &Vec<i32>, c: i32, add: bool) -> (r: Vec<i32>)
    ensures
        elems(r@) == (if add {
            elems(v@).insert(c)
        } else {
            elems(v@).remove(c)
        }),
{
    broadcast use vstd::seq_lib::group_seq_properties;

    let mut r: Vec<i32> = Vec::new();
    let mut i: usize = 0;
    while i < v.len()
        invariant
            i <= v@.len(),
            forall|x: i32| #[trigger] r@.contains(x) <==> (v@.take(i as int).contains(x) && x != c),
        decreases v@.len() - i,
    {
        let x = v[i];
        let ghost old_r = r@;
        assert(v@.take(i + 1) =~= v@.take(i as int).push(x));
        if x != c {
            r.push(x);
            assert(r@ == old_r.push(x));
        }
        assert forall|y: i32| #[trigger] r@.contains(y) <==> (v@.take(i + 1).contains(y) && y != c) by {
            vstd::seq_lib::lemma_seq_contains_after_push(v@.take(i as int), x, y);
            vstd::seq_lib::lemma_seq_contains_after_push(old_r, x, y);
        }
        i = i + 1;
    }
    assert(v@.take(v@.len() as int) =~= v@);
    if add {
        let ghost old_r = r@;
        r.push(c);
        assert forall|y: i32| #[trigger] r@.contains(y) <==> (old_r.contains(y) || y == c) by {
            vstd::seq_lib::lemma_seq_contains_after_push(old_r, c, y);
        }
        assert(elems(r@) =~= elems(v@).insert(c));
    } else {
        assert(elems(r@) =~= elems(v@).remove(c));
    }
    r
}


/// The items of `s` whose flag in `e` is unset, in their order.
pub open spec fn kept<T>(s: Seq<T>, e: Seq<bool>) -> Seq<T>
    decreases s.len(),
{
    if s.len() == 0 {
        Seq::empty()
    } else if e[s.len() - 1] {
        kept(s.drop_last(), e)
    } else {
        kept(s.drop_last(), e).push(s.last())
    }
}

/// Number of set flags among the first `n` of `e`.
pub open spec fn count_set(e: Seq<bool>, n: int) -> nat
    decreases n,
{
    if n <= 0 {
        0
    } else if e[n - 1] {
        count_set(e, n - 1) + 1
    } else {
        count_set(e, n - 1)
    }
}

/// Dropping the exited children keeps the others: the kept ones and the dropped ones add up to
/// all of them, and no kept child is one whose flag is set.
pub proof fn lemma_kept_count<T>(s: Seq<T>, e: Seq<bool>)
    requires
        s.len() == e.len(),
    ensures
        kept(s, e).len() + count_set(e, s.len() as int) == s.len(),
        forall|x: T| kept(s, e).contains(x) ==> exists|i: int| 0 <= i < s.len() && s[i] == x && !e[i],
    decreases s.len(),
{
    if s.len() > 0 {
        let d = s.drop_last();
        let ed = e.drop_last();
        lemma_kept_count(d, ed);
        assert(kept(d, e) == kept(d, ed)) by {
            lemma_kept_prefix(d, e, ed);
        }
        assert(count_set(e, d.len() as int) == count_set(ed, d.len() as int)) by {
            lemma_count_prefix(e, ed, d.len() as int);
        }
        assert forall|x: T| kept(s, e).contains(x) implies exists|i: int|
            0 <= i < s.len() && s[i] == x && !e[i] by {
            if kept(d, ed).contains(x) {
                let i = choose|i: int| 0 <= i < d.len() && d[i] == x && !ed[i];
                assert(s[i] == x && !e[i]);
            } else {
                let k = kept(d, ed);
                assert(!e[s.len() - 1]);
                let j = choose|j: int| 0 <= j < kept(s, e).len() && kept(s, e)[j] == x;
                assert(kept(s, e) == k.push(s.last()));
                assert(j == k.len());
                assert(s[s.len() - 1] == x);
            }
        }
    }
}

proof fn lemma_kept_prefix<T>(d: Seq<T>, e: Seq<bool>, ed: Seq<bool>)
    requires
        d.len() <= ed.len() <= e.len(),
        forall|i: int| 0 <= i < ed.len() ==> e[i] == ed[i],
    ensures
        kept(d, e) == kept(d, ed),
    decreases d.len(),
{
    if d.len() > 0 {
        lemma_kept_prefix(d.drop_last(), e, ed);
    }
}

proof fn lemma_count_prefix(e: Seq<bool>, ed: Seq<bool>, n: int)
    requires
        n <= ed.len() <= e.len(),
        forall|i: int| 0 <= i < ed.len() ==> e[i] == ed[i],
    ensures
        count_set(e, n) == count_set(ed, n),
    decreases n,
{
    if n > 0 {
        lemma_count_prefix(e, ed, n - 1);
    }
}

/// Drops the child processes that have exited (`exited[i]` for `children[i]`), keeping the
/// order of the others, and returns how many were dropped.
pub fn remove_exited<T>(children: &mut Vec<T>, exited: &[bool]) -> (r: usize)
    requires
        old(children)@.len() == exited@.len(),
    ensures
        final(children)@ == kept(old(children)@, exited@),
        r == count_set(exited@, exited@.len() as int),
{
    let ghost orig = children@;
    let ghost n = orig.len() as int;
    let mut i: usize = 0;
    let mut j: usize = 0;
    let mut removed: usize = 0;
    while j < exited.len()
        invariant
            n == orig.len(),
            n == exited@.len(),
            i <= j <= n,
            children@.len() == i + (n - j),
            children@.subrange(0, i as int) == kept(orig.subrange(0, j as int), exited@),
            children@.subrange(i as int, children@.len() as int) == orig.subrange(j as int, n),
            removed == count_set(exited@, j as int),
            removed <= j,
        decreases n - j,
    {
        let ghost pre = children@;
        let ghost oj = orig.subrange(0, j + 1);
        assert(oj.drop_last() =~= orig.subrange(0, j as int));
        assert(oj.last() == orig[j as int]);
        assert(pre[i as int] == pre.subrange(i as int, pre.len() as int)[0]);
        if exited[j] {
            children.remove(i);
            removed = removed + 1;
            assert(children@.subrange(0, i as int) =~= pre.subrange(0, i as int));
            assert(children@.subrange(i as int, children@.len() as int) =~= pre.subrange(
                i + 1,
                pre.len() as int,
            ));
            assert(orig.subrange(j + 1, n) =~= orig.subrange(j as int, n).subrange(
                1,
                n - j,
            ));
            assert(pre.subrange(i + 1, pre.len() as int) =~= pre.subrange(
                i as int,
                pre.len() as int,
            ).subrange(1, pre.len() - i));
        } else {
            assert(children@.subrange(0, i + 1) =~= pre.subrange(0, i as int).push(pre[i as int]));
            assert(orig.subrange(j + 1, n) =~= orig.subrange(j as int, n).subrange(
                1,
                n - j,
            ));
            assert(children@.subrange(i + 1, children@.len() as int) =~= pre.subrange(
                i as int,
                pre.len() as int,
            ).subrange(1, pre.len() - i));
            i = i + 1;
        }
        j = j + 1;
    }
    assert(orig.subrange(0, n) =~= orig);
    assert(children@.subrange(0, i as int) =~= children@);
    removed
}


/// Length of a public signing key.
pub const SIGN_PUBLIC_KEY_BYTES: usize = 32;

/// Length of a secret signing key.
pub const SIGN_SECRET_KEY_BYTES: usize = 64;

/// Length of a public encryption key.
pub const BOX_PUBLIC_KEY_BYTES: usize = 32;

/// A secure connection whose stored key pair has the right sizes starts with a key exchange.
pub open spec fn needs_handshake(secure: bool, pk_len: nat, sk_len: nat) -> bool {
    secure && pk_len == SIGN_PUBLIC_KEY_BYTES && sk_len == SIGN_SECRET_KEY_BYTES
}

/// Whether a new connection starts with a key exchange.
pub fn handshake_required(secure: bool, pk_len: usize, sk_len: usize) -> (r: bool)
    ensures
        r == needs_handshake(secure, pk_len as nat, sk_len as nat),
{
    secure && pk_len == SIGN_PUBLIC_KEY_BYTES && sk_len == SIGN_SECRET_KEY_BYTES
}

/// What the peer answered to our signed identity.
pub enum HandshakeReply {
    /// The stream ended.
    NoReply,
    /// Reading failed.
    ReadFailed,
    /// The bytes are not a message.
    Unparsable,
    /// A message of another kind.
    OtherMessage,
    /// The peer's public key, with the length of its asymmetric part.
    PublicKey { asymmetric_len: usize },
}

/// Why a connection's key exchange failed.
pub enum HandshakeError {
    NoPublicKey,
    ReadFailed,
    InvalidFormat,
    InvalidKeyLength,
}

/// What to do next with a new connection.
pub enum HandshakeStep {
    /// Decode the session key from the peer's public key, then start the connection.
    UseKey,
    /// The peer asks for our key to be confirmed again: mark it unconfirmed and start the
    /// connection.
    ForceUpdatePk,
    /// Start the connection as it is.
    Proceed,
    /// Give up on the connection.
    Fail(HandshakeError),
}

/// The next step for the answer of the peer.
pub open spec fn reply_step(reply: HandshakeReply) -> HandshakeStep {
    match reply {
        HandshakeReply::NoReply => HandshakeStep::Fail(HandshakeError::NoPublicKey),
        HandshakeReply::ReadFailed => HandshakeStep::Fail(HandshakeError::ReadFailed),
        HandshakeReply::Unparsable => HandshakeStep::Fail(HandshakeError::InvalidFormat),
        HandshakeReply::OtherMessage => HandshakeStep::Proceed,
        HandshakeReply::PublicKey { asymmetric_len } => if asymmetric_len == BOX_PUBLIC_KEY_BYTES {
            HandshakeStep::UseKey
        } else if asymmetric_len == 0 {
            HandshakeStep::ForceUpdatePk
        } else {
            HandshakeStep::Fail(HandshakeError::InvalidKeyLength)
        },
    }
}

/// Decides how a new connection goes on. `reply` is the peer's answer to our signed identity:
/// present exactly when a key exchange was made (see `handshake_required`).
pub fn create_tcp_connection(
    secure: bool,
    pk_len: usize,
    sk_len: usize,
    reply: Option<HandshakeReply>,
) -> (r: HandshakeStep)
    requires
        reply is Some <==> needs_handshake(secure, pk_len as nat, sk_len as nat),
    ensures
        r == (match reply {
            None => HandshakeStep::Proceed,
            Some(a) => reply_step(a),
        }),
{
    match reply {
        None => HandshakeStep::Proceed,
        Some(HandshakeReply::NoReply) => HandshakeStep::Fail(HandshakeError::NoPublicKey),
        Some(HandshakeReply::ReadFailed) => HandshakeStep::Fail(HandshakeError::ReadFailed),
        Some(HandshakeReply::Unparsable) => HandshakeStep::Fail(HandshakeError::InvalidFormat),
        Some(HandshakeReply::OtherMessage) => HandshakeStep::Proceed,
        Some(HandshakeReply::PublicKey { asymmetric_len }) => {
            if asymmetric_len == BOX_PUBLIC_KEY_BYTES {
                HandshakeStep::UseKey
            } else if asymmetric_len == 0 {
                HandshakeStep::ForceUpdatePk
            } else {
                HandshakeStep::Fail(HandshakeError::InvalidKeyLength)
            }
        },
    }
}

/// The text reported for a failed key exchange; `None` for a failed read, which is reported by
/// the read error itself.
pub fn handshake_error_text(e: &HandshakeError) -> (r: Option<&'static str>)
    ensures
        match e {
            HandshakeError::NoPublicKey => r matches Some(t) && t@ == "Failed to receive public key"@,
            HandshakeError::ReadFailed => r is None,
            HandshakeError::InvalidFormat => r matches Some(t) && t@
                == "Handshake failed: invalid message format"@,
            HandshakeError::InvalidKeyLength => r matches Some(t) && t@
                == "Handshake failed: invalid public sign key length from peer"@,
        },
{
    match e {
        HandshakeError::NoPublicKey => Some("Failed to receive public key"),
        HandshakeError::ReadFailed => None,
        HandshakeError::InvalidFormat => Some("Handshake failed: invalid message format"),
        HandshakeError::InvalidKeyLength => Some(
            "Handshake failed: invalid public sign key length from peer",
        ),
    }
}


/// Capturing displays without unsubscribing others never takes a subscription away: every
/// service the connection watched before, it still watches; and when the wanted displays are
/// subscribed to, the connection watches each registered wanted display afterwards.
pub proof fn lemma_capture_keeps_subscriptions(
    pre: Server,
    post: Server,
    conn: i32,
    source: VideoSource,
    displays: Seq<usize>,
    sub_wanted: bool,
)
    requires
        forall|n: Seq<char>| #[trigger]
            post.subscribers(n) == (if pre.has_service(n) {
                captured(n, pre.subscribers(n), conn, wanted_names(source, displays), sub_wanted, false)
            } else {
                pre.subscribers(n)
            }),
    ensures
        forall|n: Seq<char>| #[trigger] pre.subscribers(n).contains(conn) ==> post.subscribers(n).contains(conn),
        sub_wanted ==> forall|i: int|
            0 <= i < displays.len() && pre.has_service(service_name_spec(source, displays[i] as nat))
                ==> #[trigger] post.subscribers(service_name_spec(source, displays[i] as nat)).contains(conn),
{
    assert forall|n: Seq<char>| #[trigger] pre.subscribers(n).contains(conn) implies post.subscribers(n).contains(conn) by {
        assert(post.subscribers(n) == (if pre.has_service(n) {
            captured(n, pre.subscribers(n), conn, wanted_names(source, displays), sub_wanted, false)
        } else {
            pre.subscribers(n)
        }));
    }
    if sub_wanted {
        assert forall|i: int|
            0 <= i < displays.len() && pre.has_service(service_name_spec(source, displays[i] as nat))
                implies #[trigger] post.subscribers(service_name_spec(source, displays[i] as nat)).contains(conn) by {
            let n = service_name_spec(source, displays[i] as nat);
            let w = wanted_names(source, displays);
            assert(w[i] == n);
            assert(w.contains(n));
            assert(post.subscribers(n) == captured(n, pre.subscribers(n), conn, w, sub_wanted, false));
            let pf = source_prefix(source);
            assert(n.subrange(0, pf.len() as int) =~= pf);
            assert(has_prefix(n, pf));
            assert(is_video_name(n));
        }
    }
}

} // verus!
