//! The graphical session of the active user: its display server, display, X authority file and
//! session bus, and how each is found from what the system reports.
use vstd::prelude::*;
use crate::text::{
    has_prefix, lines, lowercase, remove_all, remove_all_str, replace_char, replace_char_str,
    split_lines, split_words, str_starts_with, str_views, to_lowercase_str, trim, trim_str, words,
};
use crate::platform::linux::str_eq;

verus! {

/// Process name of the Xfce panel.
pub const XFCE4_PANEL: &'static str = "xfce4-panel";

/// Process name of the SDDM greeter.
pub const SDDM_GREETER: &'static str = "sddm-greeter";

/// Process name of the desktop portal, present on every Wayland desktop.
pub const XDG_DESKTOP_PORTAL: &'static str = "xdg-desktop-portal";

/// Process name of the X server that runs under Wayland.
pub const XWAYLAND: &'static str = "Xwayland";

/// Process name of the input method daemon.
pub const IBUS_DAEMON: &'static str = "ibus-daemon";

/// Pattern of the KDE daemon's process name.
pub const PLASMA_KDED: &'static str = "kded[0-9]+";

/// Process name of the GNOME online accounts daemon.
pub const GNOME_GOA_DAEMON: &'static str = "goa-daemon";

/// Name of the Wayland display server.
pub const DISPLAY_SERVER_WAYLAND: &'static str = "wayland";

/// The session of the active user on seat 0, as far as it is known.
pub struct Desktop {
    pub sid: String,
    pub username: String,
    pub uid: String,
    pub protocol: String,
    pub display: String,
    pub xauth: String,
    pub home: String,
    pub dbus: String,
    pub is_rustdesk_subprocess: bool,
    pub wl_display: String,
}

/// Every text field of the session is empty and it is no subprocess.
pub open spec fn is_blank(d: Desktop) -> bool {
    &&& d.sid@.len() == 0
    &&& d.username@.len() == 0
    &&& d.uid@.len() == 0
    &&& d.protocol@.len() == 0
    &&& d.display@.len() == 0
    &&& d.xauth@.len() == 0
    &&& d.home@.len() == 0
    &&& d.dbus@.len() == 0
    &&& !d.is_rustdesk_subprocess
    &&& d.wl_display@.len() == 0
}

impl Desktop {
    /// A session of which nothing is known.
    pub fn blank() -> (r: Desktop)
        ensures
            is_blank(r),
    {
        Desktop {
            sid: String::new(),
            username: String::new(),
            uid: String::new(),
            protocol: String::new(),
            display: String::new(),
            xauth: String::new(),
            home: String::new(),
            dbus: String::new(),
            is_rustdesk_subprocess: false,
            wl_display: String::new(),
        }
    }

    /// The session runs under Wayland.
    pub fn is_wayland(&self) -> (r: bool)
        ensures
            r == (self.protocol@ == DISPLAY_SERVER_WAYLAND@),
    {
        str_eq(self.protocol.as_str(), DISPLAY_SERVER_WAYLAND)
    }

    /// The session is a Wayland login screen: a greeter user (`username_is_gdm`) under Wayland.
    pub fn is_login_wayland(&self, username_is_gdm: bool) -> (r: bool)
        ensures
            r == (username_is_gdm && self.protocol@ == DISPLAY_SERVER_WAYLAND@),
    {
        username_is_gdm && self.is_wayland()
    }

    /// There is no session, or the one found is a display this program started itself.
    pub fn is_headless(&self) -> (r: bool)
        ensures
            r == (self.sid@.len() == 0 || self.is_rustdesk_subprocess),
    {
        self.sid.as_str().unicode_len() == 0 || self.is_rustdesk_subprocess
    }
}

/// Process name of this program's tray: the lowercased application name followed by
/// ` +--tray`.
pub open spec fn tray_name(app_name: Seq<char>) -> Seq<char> {
    lowercase(app_name) + " +--tray"@
}

/// The process name of this program's tray.
pub fn tray_process(app_name: &str) -> (r: String)
    ensures
        r@ == tray_name(app_name@),
{
    let mut t = to_lowercase_str(app_name);
    t.append(" +--tray");
    t
}

/// The processes whose environment gives the X display, in the order they are asked.
pub open spec fn display_x11_names() -> Seq<Seq<char>> {
    seq![XWAYLAND@, IBUS_DAEMON@, GNOME_GOA_DAEMON@, PLASMA_KDED@, XFCE4_PANEL@, SDDM_GREETER@]
}

/// The processes whose environment gives the X display.
pub fn display_x11_procs() -> (r: Vec<String>)
    ensures
        str_views(r@) == display_x11_names(),
{
    let mut v: Vec<String> = Vec::new();
    v.push(String::from_str(XWAYLAND));
    v.push(String::from_str(IBUS_DAEMON));
    v.push(String::from_str(GNOME_GOA_DAEMON));
    v.push(String::from_str(PLASMA_KDED));
    v.push(String::from_str(XFCE4_PANEL));
    v.push(String::from_str(SDDM_GREETER));
    assert(str_views(v@) =~= display_x11_names());
    v
}

/// The processes whose environment gives the X authority file, in the order they are asked:
/// those that give the display, then this program's tray.
pub fn xauth_x11_procs(tray: &str) -> (r: Vec<String>)
    ensures
        str_views(r@) == display_x11_names().push(tray@),
{
    let mut v = display_x11_procs();
    let ghost pre = str_views(v@);
    v.push(String::from_str(tray));
    assert(str_views(v@) =~= pre.push(tray@));
    v
}

/// The processes whose environment gives the display of an X server under Wayland, in the
/// order they are asked.
pub open spec fn xwayland_names(tray: Seq<char>) -> Seq<Seq<char>> {
    seq![XDG_DESKTOP_PORTAL@, XWAYLAND@, IBUS_DAEMON@, GNOME_GOA_DAEMON@, PLASMA_KDED@, tray]
}

/// The processes whose environment gives the display of an X server under Wayland.
pub fn xwayland_procs(tray: &str) -> (r: Vec<String>)
    ensures
        str_views(r@) == xwayland_names(tray@),
{
    let mut v: Vec<String> = Vec::new();
    v.push(String::from_str(XDG_DESKTOP_PORTAL));
    v.push(String::from_str(XWAYLAND));
    v.push(String::from_str(IBUS_DAEMON));
    v.push(String::from_str(GNOME_GOA_DAEMON));
    v.push(String::from_str(PLASMA_KDED));
    v.push(String::from_str(tray));
    assert(str_views(v@) =~= xwayland_names(tray@));
    v
}

/// The first non-empty text of `v`, or empty when there is none.
pub open spec fn first_non_empty(v: Seq<Seq<char>>) -> Seq<char>
    decreases v.len(),
{
    if v.len() == 0 {
        Seq::empty()
    } else if v[0].len() > 0 {
        v[0]
    } else {
        first_non_empty(v.drop_first())
    }
}

/// The first value found when asking processes in turn, or empty when none had one.
pub fn first_found(values: &Vec<String>) -> (r: String)
    ensures
        r@ == first_non_empty(str_views(values@)),
{
    let mut i: usize = 0;
    assert(str_views(values@).skip(0) =~= str_views(values@));
    while i < values.len()
        invariant
            i <= values@.len(),
            first_non_empty(str_views(values@)) == first_non_empty(str_views(values@).skip(i as int)),
        decreases values@.len() - i,
    {
        assert(str_views(values@).skip(i as int)[0] == values@[i as int]@);
        if values[i].as_str().unicode_len() > 0 {
            return String::from_str(values[i].as_str());
        }
        assert(str_views(values@).skip(i as int).drop_first() =~= str_views(values@).skip(i + 1));
        i = i + 1;
    }
    assert(str_views(values@).skip(i as int) =~= Seq::<Seq<char>>::empty());
    String::new()
}

/// The X display: the one found in a process environment, else the one found for the user,
/// else `:0`; the host name and `localhost` are then removed from it.
pub open spec fn x11_display(found: Seq<char>, by_user: Seq<char>, hostname: Seq<char>) -> Seq<char> {
    let d = if found.len() > 0 {
        found
    } else if by_user.len() > 0 {
        by_user
    } else {
        ":0"@
    };
    remove_all(remove_all(d, hostname), "localhost"@)
}

/// Settles the X display of a session. `by_user` is only consulted when `found` is empty.
pub fn get_display_x11(found: &str, by_user: &str, hostname: &str) -> (r: String)
    ensures
        r@ == x11_display(found@, by_user@, hostname@),
{
    let d: &str = if found.unicode_len() > 0 {
        found
    } else if by_user.unicode_len() > 0 {
        by_user
    } else {
        ":0"
    };
    let without_host = remove_all_str(d, hostname);
    remove_all_str(without_host.as_str(), "localhost")
}

/// The display in the third column of the first line of `w` output where it starts with `:`.
pub open spec fn w_display(ls: Seq<Seq<char>>) -> Option<Seq<char>>
    decreases ls.len(),
{
    if ls.len() == 0 {
        None
    } else if words(ls[0]).len() > 2 && has_prefix(words(ls[0])[2], ":"@) {
        Some(words(ls[0])[2])
    } else {
        w_display(ls.drop_first())
    }
}

/// The result of reading a listing of the X socket directory from line `i` on: each socket
/// name `X<n>` whose line has a further column becomes display `:<n>`; the first owned by
/// `user` is taken at once, else the last one seen.
pub open spec fn socket_display(ls: Seq<Seq<char>>, user: Seq<char>, last: Seq<char>) -> Seq<char>
    decreases ls.len(),
{
    if ls.len() == 0 {
        last
    } else {
        let w = words(ls[0]);
        if w.len() > 3 && has_prefix(w.last(), "X"@) {
            let d = replace_char(w.last(), 'X', ':');
            if w[2] == user {
                d
            } else {
                socket_display(ls.drop_first(), user, d)
            }
        } else {
            socket_display(ls.drop_first(), user, last)
        }
    }
}

/// The display of `user`: from the output of `w <user>` when it shows one, else from the
/// listing of the X socket directory (`ls -l /tmp/.X11-unix/`); empty when a command failed
/// and nothing was found.
pub open spec fn display_by_user(user: Seq<char>, w_output: Option<Seq<char>>, ls_output: Option<
    Seq<char>,
>) -> Seq<char> {
    match (match w_output {
        Some(o) => w_display(lines(o)),
        None => None,
    }) {
        Some(d) => d,
        None => match ls_output {
            Some(o) => socket_display(lines(o), user, Seq::empty()),
            None => Seq::empty(),
        },
    }
}

fn w_display_of(out: &str) -> (r: Option<String>)
    ensures
        r matches Some(d) ==> w_display(lines(out@)) == Some(d@),
        r is None ==> w_display(lines(out@)) is None,
{
    let ls = split_lines(out);
    let mut i: usize = 0;
    assert(lines(out@).skip(0) =~= lines(out@));
    while i < ls.len()
        invariant
            i <= ls@.len(),
            str_views(ls@) == lines(out@),
            w_display(lines(out@)) == w_display(lines(out@).skip(i as int)),
        decreases ls@.len() - i,
    {
        let ghost rest = lines(out@).skip(i as int);
        assert(rest[0] == ls@[i as int]@);
        assert(rest.drop_first() =~= lines(out@).skip(i + 1));
        let w = split_words(ls[i].as_str());
        if w.len() > 2 && str_starts_with(w[2].as_str(), ":") {
            proof {
                reveal_strlit(":");
                assert(str_views(w@)[2] == w@[2]@);
            }
            return Some(String::from_str(w[2].as_str()));
        }
        proof {
            reveal_strlit(":");
            if w@.len() > 2 {
                assert(str_views(w@)[2] == w@[2]@);
            }
        }
        i = i + 1;
    }
    assert(lines(out@).skip(i as int) =~= Seq::<Seq<char>>::empty());
    None
}

fn socket_display_of(out: &str, user: &str) -> (r: String)
    ensures
        r@ == socket_display(lines(out@), user@, Seq::empty()),
{
    let ls = split_lines(out);
    assert(lines(out@).skip(0) =~= lines(out@));
    let mut last = String::new();
    let mut i: usize = 0;
    proof {
        reveal_strlit("X");
        reveal_strlit(":");
        assert(":"@ =~= seq![':']);
    }
    while i < ls.len()
        invariant
            i <= ls@.len(),
            str_views(ls@) == lines(out@),
            ":"@ == seq![':'],
            socket_display(lines(out@), user@, Seq::empty()) == socket_display(
                lines(out@).skip(i as int),
                user@,
                last@,
            ),
        decreases ls@.len() - i,
    {
        let ghost rest = lines(out@).skip(i as int);
        assert(rest[0] == ls@[i as int]@);
        assert(rest.drop_first() =~= lines(out@).skip(i + 1));
        let w = split_words(ls[i].as_str());
        let k = w.len();
        if k > 3 && str_starts_with(w[k - 1].as_str(), "X") {
            assert(str_views(w@).last() == w@[k - 1]@);
            assert(str_views(w@)[2] == w@[2]@);
            last = replace_char_str(w[k - 1].as_str(), 'X', ":");
            if str_eq(w[2].as_str(), user) {
                return last;
            }
        } else {
            proof {
                if k > 3 {
                    assert(str_views(w@).last() == w@[k - 1]@);
                }
            }
        }
        i = i + 1;
    }
    assert(lines(out@).skip(i as int) =~= Seq::<Seq<char>>::empty());
    last
}

/// Finds the display of `user` from what `w <user>` and `ls -l /tmp/.X11-unix/` printed
/// (`None` for a command that failed). `ls_output` is only consulted when `w` shows no display.
pub fn get_display_by_user(user: &str, w_output: Option<&str>, ls_output: Option<&str>) -> (r:
    String)
    ensures
        r@ == display_by_user(
            user@,
            match w_output {
                Some(o) => Some(o@),
                None => None,
            },
            match ls_output {
                Some(o) => Some(o@),
                None => None,
            },
        ),
{
    match w_output {
        Some(o) => match w_display_of(o) {
            Some(d) => {
                return d;
            },
            None => {},
        },
        None => {},
    }
    match ls_output {
        Some(o) => socket_display_of(o, user),
        None => String::new(),
    }
}

/// The index of the authority argument among the words `w[k..]` of an X server's command line:
/// the first word that is not `-auth` itself and comes after an `-auth` (`found` tells whether
/// one came before `k`).
pub open spec fn auth_in_words(w: Seq<Seq<char>>, k: int, found: bool) -> Option<int>
    decreases w.len() - k,
{
    if k < 0 || k >= w.len() {
        None
    } else if w[k] == "-auth"@ {
        auth_in_words(w, k + 1, true)
    } else if found {
        Some(k)
    } else {
        auth_in_words(w, k + 1, false)
    }
}

proof fn lemma_auth_in_words_bounds(w: Seq<Seq<char>>, k: int, found: bool)
    requires
        0 <= k,
        found ==> k >= 1,
    ensures
        auth_in_words(w, k, found) matches Some(i) ==> 1 <= i < w.len(),
    decreases w.len() - k,
{
    if k < w.len() {
        if w[k] == "-auth"@ {
            lemma_auth_in_words_bounds(w, k + 1, true);
        } else if !found {
            lemma_auth_in_words_bounds(w, k + 1, false);
        }
    }
}

/// The `-auth` argument and process id of the first line of `ls` that has one.
pub open spec fn xorg_auth(ls: Seq<Seq<char>>) -> Option<(Seq<char>, Seq<char>)>
    decreases ls.len(),
{
    if ls.len() == 0 {
        None
    } else {
        let w = words(ls[0]);
        match auth_in_words(w, 0, false) {
            Some(k) => Some((w[k], w[1])),
            None => xorg_auth(ls.drop_first()),
        }
    }
}

fn auth_index(w: &Vec<String>) -> (r: Option<usize>)
    ensures
        match r {
            Some(k) => auth_in_words(str_views(w@), 0, false) == Some(k as int) && 1 <= k < w@.len(),
            None => auth_in_words(str_views(w@), 0, false) is None,
        },
{
    let ghost sv = str_views(w@);
    proof {
        lemma_auth_in_words_bounds(sv, 0, false);
    }
    let mut k: usize = 0;
    let mut found = false;
    while k < w.len()
        invariant
            sv == str_views(w@),
            k <= w@.len(),
            auth_in_words(sv, 0, false) == auth_in_words(sv, k as int, found),
            auth_in_words(sv, 0, false) matches Some(i) ==> 1 <= i < w@.len(),
        decreases w@.len() - k,
    {
        assert(sv[k as int] == w@[k as int]@);
        if str_eq(w[k].as_str(), "-auth") {
            found = true;
        } else if found {
            return Some(k);
        }
        k = k + 1;
    }
    None
}

/// Finds the X authority argument in the output of `ps -u <uid> -f` filtered on `Xorg`: the
/// argument after `-auth`, with the process id of its line.
pub fn get_xorg_auth_arg(output: &str) -> (r: Option<(String, String)>)
    ensures
        match r {
            Some((v, pid)) => xorg_auth(lines(output@)) == Some((v@, pid@)),
            None => xorg_auth(lines(output@)) is None,
        },
{
    let ls = split_lines(output);
    let mut i: usize = 0;
    assert(lines(output@).skip(0) =~= lines(output@));
    while i < ls.len()
        invariant
            i <= ls@.len(),
            str_views(ls@) == lines(output@),
            xorg_auth(lines(output@)) == xorg_auth(lines(output@).skip(i as int)),
        decreases ls@.len() - i,
    {
        let ghost rest = lines(output@).skip(i as int);
        assert(rest[0] == ls@[i as int]@);
        assert(rest.drop_first() =~= lines(output@).skip(i + 1));
        let w = split_words(ls[i].as_str());
        match auth_index(&w) {
            Some(k) => {
                assert(str_views(w@)[k as int] == w@[k as int]@);
                assert(str_views(w@)[1] == w@[1]@);
                return Some((String::from_str(w[k].as_str()), String::from_str(w[1].as_str())));
            },
            None => {},
        }
        i = i + 1;
    }
    assert(lines(output@).skip(i as int) =~= Seq::<Seq<char>>::empty());
    None
}

/// Where the X authority file named by an X server argument is.
pub enum XorgXauth {
    /// The argument names an existing file by an absolute path.
    Direct(String),
    /// The argument is relative to `base`: the file is `path` when `base` exists.
    UnderBase { base: String, path: String },
}

/// The directory a relative authority argument is read against: the home of the X server
/// process when known, else the user's home, else `/home`.
pub open spec fn xorg_base(pid_home: Seq<char>, user_home: Option<Seq<char>>) -> Seq<char> {
    if pid_home.len() > 0 {
        pid_home
    } else {
        match user_home {
            Some(h) => h,
            None => "/home"@,
        }
    }
}

/// Locates the authority file named by `arg`; `arg_exists` tells whether it exists as a path,
/// `pid_home` is the `HOME` of the X server process (empty when unknown) and `user_home` the
/// user's home directory.
pub fn xauth_from_xorg(arg: &str, arg_exists: bool, pid_home: &str, user_home: Option<String>) -> (r:
    XorgXauth)
    ensures
        (has_prefix(arg@, "/"@) && arg_exists) ==> (r matches XorgXauth::Direct(v) && v@ == arg@),
        !(has_prefix(arg@, "/"@) && arg_exists) ==> (r matches XorgXauth::UnderBase { base, path }
            && base@ == xorg_base(
            pid_home@,
            match user_home {
                Some(h) => Some(h@),
                None => None,
            },
        ) && path@ == base@ + "/"@ + arg@),
{
    if str_starts_with(arg, "/") && arg_exists {
        return XorgXauth::Direct(String::from_str(arg));
    }
    let base: String = if pid_home.unicode_len() > 0 {
        String::from_str(pid_home)
    } else {
        match user_home {
            Some(h) => h,
            None => String::from_str("/home"),
        }
    };
    let mut path = String::from_str(base.as_str());
    path.append("/");
    path.append(arg);
    XorgXauth::UnderBase { base, path }
}

/// The authority file a display manager keeps for the user `uid`.
pub fn gdm_xauth_path(uid: &str) -> (r: String)
    ensures
        r@ == "/run/user/"@ + uid@ + "/gdm/Xauthority"@,
{
    let mut p = String::from_str("/run/user/");
    p.append(uid);
    p.append("/gdm/Xauthority");
    p
}

/// The authority file in the usual home directory of `username`.
pub fn home_xauth_path(username: &str) -> (r: String)
    ensures
        r@ == "/home/"@ + username@ + "/.Xauthority"@,
{
    let mut p = String::from_str("/home/");
    p.append(username);
    p.append("/.Xauthority");
    p
}

/// The authority file assumed when no process names one: the display manager's when it exists,
/// else the one in the user's home directory, else for `root` the one in `/root`, else the one
/// under `/home` when it exists, else the one under `/var/lib`.
pub open spec fn default_xauth(
    uid: Seq<char>,
    username: Seq<char>,
    gdm_exists: bool,
    user_home: Option<Seq<char>>,
    home_xauth_exists: bool,
) -> Seq<char> {
    if gdm_exists {
        "/run/user/"@ + uid + "/gdm/Xauthority"@
    } else {
        match user_home {
            Some(h) => h + "/.Xauthority"@,
            None => if username == "root"@ {
                "/"@ + username + "/.Xauthority"@
            } else if home_xauth_exists {
                "/home/"@ + username + "/.Xauthority"@
            } else {
                "/var/lib/"@ + username + "/.Xauthority"@
            },
        }
    }
}

/// The X authority file of the session: the one a process names (`probed`), else the one the
/// X server was started with (`from_xorg`), else the default one. `gdm_exists` and
/// `home_xauth_exists` tell whether `gdm_xauth_path(uid)` and `home_xauth_path(username)`
/// exist.
pub fn get_xauth_x11(
    probed: &str,
    from_xorg: &str,
    uid: &str,
    username: &str,
    gdm_exists: bool,
    user_home: Option<String>,
    home_xauth_exists: bool,
) -> (r: String)
    ensures
        r@ == (if probed@.len() > 0 {
            probed@
        } else if from_xorg@.len() > 0 {
            from_xorg@
        } else {
            default_xauth(
                uid@,
                username@,
                gdm_exists,
                match user_home {
                    Some(h) => Some(h@),
                    None => None,
                },
                home_xauth_exists,
            )
        }),
{
    if probed.unicode_len() > 0 {
        return String::from_str(probed);
    }
    if from_xorg.unicode_len() > 0 {
        return String::from_str(from_xorg);
    }
    if gdm_exists {
        return gdm_xauth_path(uid);
    }
    match user_home {
        Some(h) => {
            let mut p = h;
            p.append("/.Xauthority");
            p
        },
        None => {
            if str_eq(username, "root") {
                let mut p = String::from_str("/");
                p.append(username);
                p.append("/.Xauthority");
                p
            } else if home_xauth_exists {
                home_xauth_path(username)
            } else {
                let mut p = String::from_str("/var/lib/");
                p.append(username);
                p.append("/.Xauthority");
                p
            }
        },
    }
}

/// The home directory of `username`: what the user database gave (`lookup`), else `/root` for
/// `root` and `/home/<username>` for anyone else.
pub fn home_of(username: &str, lookup: Option<String>) -> (r: String)
    ensures
        r@ == (match lookup {
            Some(h) => h@,
            None => if username@ == "root"@ {
                "/root"@
            } else {
                "/home/"@ + username@
            },
        }),
{
    match lookup {
        Some(h) => h,
        None => {
            if str_eq(username, "root") {
                return String::from_str("/root");
            }
            let mut p = String::from_str("/home/");
            p.append(username);
            p
        },
    }
}

/// Whether a display this program started is running, from the count of matching processes
/// (`None` when counting failed).
pub fn is_subprocess_count(output: Option<&str>) -> (r: bool)
    ensures
        r == (match output {
            Some(o) => trim(o@) != "0"@,
            None => false,
        }),
{
    match output {
        Some(o) => !str_eq(trim_str(o), "0"),
        None => false,
    }
}

/// A Wayland session is found once both its display and its bus are known.
pub fn wayland_env_found(d: &Desktop) -> (r: bool)
    ensures
        r == (d.wl_display@.len() > 0 && d.dbus@.len() > 0),
{
    d.wl_display.as_str().unicode_len() > 0 && d.dbus.as_str().unicode_len() > 0
}

/// An X server under Wayland is found once both its display and authority file are known.
pub fn xwayland_env_found(d: &Desktop) -> (r: bool)
    ensures
        r == (d.display@.len() > 0 && d.xauth@.len() > 0),
{
    d.display.as_str().unicode_len() > 0 && d.xauth.as_str().unicode_len() > 0
}

/// What remains to be found of a session after its basic facts are settled.
pub enum RefreshProbe {
    /// Nothing more.
    Done,
    /// Display, authority file and bus of the X server under Wayland.
    Xwayland,
    /// Display and bus of the Wayland session.
    Wayland,
    /// Display, authority file and whether this program started the display, under X11.
    X11,
}

/// For a session already known and active on seat 0: which probe refreshes it.
pub open spec fn active_probe(d: Desktop, xwayland_running: bool, username_is_gdm: bool) -> RefreshProbe {
    if xwayland_running && !(username_is_gdm && d.protocol@ == DISPLAY_SERVER_WAYLAND@) {
        RefreshProbe::Xwayland
    } else if d.protocol@ == DISPLAY_SERVER_WAYLAND@ {
        RefreshProbe::Wayland
    } else {
        RefreshProbe::Done
    }
}

/// Refreshes a session that is already known: `None` when it is not (no session id, or the
/// session is not the active one on seat 0), so that seat 0 must be read again. Before an X
/// server probe under Wayland, the subprocess mark is cleared.
pub fn refresh_active(d: &mut Desktop, active_on_seat0: bool, xwayland_running: bool, username_is_gdm: bool) -> (r:
    Option<RefreshProbe>)
    ensures
        (old(d).sid@.len() > 0 && active_on_seat0) ==> r == Some(
            active_probe(*old(d), xwayland_running, username_is_gdm),
        ),
        !(old(d).sid@.len() > 0 && active_on_seat0) ==> r is None,
        final(d).is_rustdesk_subprocess == (if r == Some(RefreshProbe::Xwayland) {
            false
        } else {
            old(d).is_rustdesk_subprocess
        }),
        final(d).sid@ == old(d).sid@,
        final(d).username@ == old(d).username@,
        final(d).uid@ == old(d).uid@,
        final(d).protocol@ == old(d).protocol@,
        final(d).display@ == old(d).display@,
        final(d).xauth@ == old(d).xauth@,
        final(d).home@ == old(d).home@,
        final(d).dbus@ == old(d).dbus@,
        final(d).wl_display@ == old(d).wl_display@,
{
    if d.sid.as_str().unicode_len() > 0 && active_on_seat0 {
        if xwayland_running && !d.is_login_wayland(username_is_gdm) {
            d.is_rustdesk_subprocess = false;
            Some(RefreshProbe::Xwayland)
        } else if d.is_wayland() {
            Some(RefreshProbe::Wayland)
        } else {
            Some(RefreshProbe::Done)
        }
    } else {
        None
    }
}

/// What settling a session from seat 0 does (see `refresh_from_seat0`): `seat0` holds the
/// session id, uid and user name.
pub open spec fn seat0_refresh(
    pre: Desktop,
    post: Desktop,
    seat0: Seq<Seq<char>>,
    protocol: Seq<char>,
    username_is_gdm: bool,
    xwayland_running: bool,
    home: Seq<char>,
    r: RefreshProbe,
) -> bool {
    &&& seat0[0].len() == 0 ==> is_blank(post) && r == RefreshProbe::Done
    &&& seat0[0].len() > 0 ==> {
        &&& post.sid@ == seat0[0]
        &&& post.uid@ == seat0[1]
        &&& post.username@ == seat0[2]
        &&& post.protocol@ == protocol
        &&& post.dbus@ == pre.dbus@
        &&& post.wl_display@ == pre.wl_display@
        &&& if username_is_gdm && protocol == DISPLAY_SERVER_WAYLAND@ {
            &&& r == RefreshProbe::Done
            &&& post.display@.len() == 0
            &&& post.xauth@.len() == 0
            &&& !post.is_rustdesk_subprocess
            &&& post.home@ == pre.home@
        } else {
            &&& post.home@ == home
            &&& post.display@ == pre.display@
            &&& post.xauth@ == pre.xauth@
            &&& if protocol == DISPLAY_SERVER_WAYLAND@ {
                &&& !post.is_rustdesk_subprocess
                &&& r == (if xwayland_running {
                    RefreshProbe::Xwayland
                } else {
                    RefreshProbe::Wayland
                })
            } else {
                &&& post.is_rustdesk_subprocess == pre.is_rustdesk_subprocess
                &&& r == RefreshProbe::X11
            }
        }
    }
}

/// What refreshing a session already known and active on seat 0 does (see `refresh_active`):
/// only the subprocess mark may change, cleared before an X server probe under Wayland.
pub open spec fn active_refresh(pre: Desktop, post: Desktop, xwayland_running: bool, username_is_gdm: bool, r: RefreshProbe) -> bool {
    &&& r == active_probe(pre, xwayland_running, username_is_gdm)
    &&& post.is_rustdesk_subprocess == (if r == RefreshProbe::Xwayland {
        false
    } else {
        pre.is_rustdesk_subprocess
    })
    &&& post.sid@ == pre.sid@
    &&& post.username@ == pre.username@
    &&& post.uid@ == pre.uid@
    &&& post.protocol@ == pre.protocol@
    &&& post.display@ == pre.display@
    &&& post.xauth@ == pre.xauth@
    &&& post.home@ == pre.home@
    &&& post.dbus@ == pre.dbus@
    &&& post.wl_display@ == pre.wl_display@
}

/// Settles a session from the values of seat 0 (session id, uid, user name) and the display
/// server of that session: an empty session id leaves a blank session; a Wayland login screen
/// has no display or authority file; otherwise the home directory is set and a probe follows.
/// `username_is_gdm` tells whether `seat0[2]` is a greeter user.
pub fn refresh_from_seat0(
    d: &mut Desktop,
    seat0: &Vec<String>,
    protocol: &str,
    username_is_gdm: bool,
    xwayland_running: bool,
    home: &str,
) -> (r: RefreshProbe)
    requires
        seat0@.len() >= 3,
    ensures
        seat0_refresh(*old(d), *final(d), str_views(seat0@), protocol@, username_is_gdm, xwayland_running, home@, r),
{
    if seat0[0].as_str().unicode_len() == 0 {
        *d = Desktop::blank();
        return RefreshProbe::Done;
    }
    d.sid = String::from_str(seat0[0].as_str());
    d.uid = String::from_str(seat0[1].as_str());
    d.username = String::from_str(seat0[2].as_str());
    d.protocol = String::from_str(protocol);
    if d.is_login_wayland(username_is_gdm) {
        d.display = String::new();
        d.xauth = String::new();
        d.is_rustdesk_subprocess = false;
        return RefreshProbe::Done;
    }
    d.home = String::from_str(home);
    if d.is_wayland() {
        d.is_rustdesk_subprocess = false;
        if xwayland_running {
            RefreshProbe::Xwayland
        } else {
            RefreshProbe::Wayland
        }
    } else {
        RefreshProbe::X11
    }
}


impl Desktop {
    /// Refreshes the session in one step, from everything the session manager reports: whether
    /// the known session is the active one on seat 0, whether an X server runs under Wayland,
    /// whether the known user is a greeter, the values of seat 0 with the display server of
    /// their session, whether their user is a greeter, and their home directory. Returns the
    /// probe that remains to be made.
    pub fn refresh(
        &mut self,
        active_on_seat0: bool,
        xwayland_running: bool,
        username_is_gdm: bool,
        seat0: &Vec<String>,
        seat0_protocol: &str,
        seat0_user_is_gdm: bool,
        seat0_home: &str,
    ) -> (r: RefreshProbe)
        requires
            seat0@.len() >= 3,
        ensures
            (old(self).sid@.len() > 0 && active_on_seat0) ==> active_refresh(
                *old(self),
                *final(self),
                xwayland_running,
                username_is_gdm,
                r,
            ),
            !(old(self).sid@.len() > 0 && active_on_seat0) ==> seat0_refresh(
                *old(self),
                *final(self),
                str_views(seat0@),
                seat0_protocol@,
                seat0_user_is_gdm,
                xwayland_running,
                seat0_home@,
                r,
            ),
    {
        match refresh_active(self, active_on_seat0, xwayland_running, username_is_gdm) {
            Some(p) => p,
            None => refresh_from_seat0(
                self,
                seat0,
                seat0_protocol,
                seat0_user_is_gdm,
                xwayland_running,
                seat0_home,
            ),
        }
    }
}


/// How many times a session's processes are asked before giving up.
pub const PROBE_ATTEMPTS: u32 = 10;

/// The pause after an attempt that found nothing, in milliseconds.
pub const PROBE_PAUSE_MS: u64 = 300;

/// What follows an attempt to find a session's display, authority file or bus.
pub enum ProbeStep {
    /// The attempt found what it looked for: stop.
    Found,
    /// Pause, then try again.
    Retry { pause_ms: u64 },
    /// Pause, then stop: this was the last attempt.
    GiveUp { pause_ms: u64 },
}

/// The step after attempt `attempt` (counted from 1): stop when it found something; otherwise
/// pause and try again, up to `PROBE_ATTEMPTS` attempts in all.
pub fn probe_step(attempt: u32, found: bool) -> (r: ProbeStep)
    requires
        1 <= attempt <= PROBE_ATTEMPTS,
    ensures
        found ==> r == ProbeStep::Found,
        !found && attempt < PROBE_ATTEMPTS ==> r == (ProbeStep::Retry { pause_ms: PROBE_PAUSE_MS }),
        !found && attempt == PROBE_ATTEMPTS ==> r == (ProbeStep::GiveUp { pause_ms: PROBE_PAUSE_MS }),
{
    if found {
        ProbeStep::Found
    } else if attempt < PROBE_ATTEMPTS {
        ProbeStep::Retry { pause_ms: PROBE_PAUSE_MS }
    } else {
        ProbeStep::GiveUp { pause_ms: PROBE_PAUSE_MS }
    }
}


/// For a Wayland session of an ordinary user found on seat 0, the display is taken from the X
/// server's processes exactly when an X server runs under Wayland, and from the Wayland session
/// otherwise; the user's home is set and the subprocess mark is cleared either way.
pub proof fn lemma_wayland_session_probe(
    pre: Desktop,
    post: Desktop,
    seat0: Seq<Seq<char>>,
    xwayland_running: bool,
    home: Seq<char>,
    r: RefreshProbe,
)
    requires
        seat0.len() >= 3,
        seat0[0].len() > 0,
        seat0_refresh(pre, post, seat0, "wayland"@, false, xwayland_running, home, r),
    ensures
        xwayland_running <==> r == RefreshProbe::Xwayland,
        !xwayland_running <==> r == RefreshProbe::Wayland,
        post.home@ == home,
        !post.is_rustdesk_subprocess,
        post.username@ == seat0[2],
{
    reveal_strlit("wayland");
    assert(DISPLAY_SERVER_WAYLAND@ == "wayland"@);
}

/// A greeter's Wayland session is a login screen: nothing is probed and display, authority
/// file and subprocess mark are cleared, whether or not an X server runs.
pub proof fn lemma_login_screen_not_probed(
    pre: Desktop,
    post: Desktop,
    seat0: Seq<Seq<char>>,
    xwayland_running: bool,
    home: Seq<char>,
    r: RefreshProbe,
)
    requires
        seat0.len() >= 3,
        seat0[0].len() > 0,
        seat0_refresh(pre, post, seat0, "wayland"@, true, xwayland_running, home, r),
    ensures
        r == RefreshProbe::Done,
        post.display@.len() == 0,
        post.xauth@.len() == 0,
        !post.is_rustdesk_subprocess,
{
    assert(DISPLAY_SERVER_WAYLAND@ == "wayland"@);
}

} // verus!
