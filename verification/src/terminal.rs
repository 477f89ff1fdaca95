//! Decisions of the WebSocket terminal: how the shell is launched, and what
//! each frame from the client does.

use vstd::prelude::*;

verus! {

/// The only program the terminal ever launches.
pub const SHELL_PATH: &'static str = "/bin/bash";
/// The `PATH` handed to the shell.
pub const SHELL_ENV_PATH: &'static str = "/usr/local/bin:/usr/bin:/bin";
/// Initial terminal width in cells.
pub const DEFAULT_COLS: u16 = 80;
/// Initial terminal height in cells.
pub const DEFAULT_ROWS: u16 = 24;
/// Size of the terminal read buffer.
pub const READ_BUF: usize = 8192;

/// How to launch the shell: program, its whole environment (nothing is
/// inherited), working directory and initial size.
#[derive(Debug)]
pub struct ShellPlan {
    pub program: String,
    pub env: Vec<(String, String)>,
    pub cwd: String,
    pub rows: u16,
    pub cols: u16,
}

/// The environment the shell gets, for home directory `home`.
pub open spec fn shell_env(home: Seq<char>) -> Seq<(Seq<char>, Seq<char>)> {
    seq![
        ("PATH"@, "/usr/local/bin:/usr/bin:/bin"@),
        ("TERM"@, "xterm-256color"@),
        ("LANG"@, "C.UTF-8"@),
        ("HOME"@, home),
    ]
}

/// The message when the pinned shell does not exist.
pub open spec fn missing_shell_text() -> Seq<char> {
    "refusing to spawn terminal: /bin/bash not found"@
}

fn pair(k: &str, v: &str) -> (r: (String, String))
    ensures
        r.0@ == k@,
        r.1@ == v@,
{
    (k.to_owned(), v.to_owned())
}

/// The launch plan: refused unless the pinned shell exists; the home
/// directory defaults to `/` and is also the working directory.
pub fn shell_plan(shell_exists: bool, home: Option<String>) -> (r: Result<ShellPlan, String>)
    ensures
        !shell_exists ==> (r matches Err(m) && m@ == missing_shell_text()),
        shell_exists ==> (r matches Ok(p) && {
            let h = match home {
                Some(h) => h@,
                None => "/"@,
            };
            &&& p.program@ == "/bin/bash"@
            &&& p.env@.map_values(|e: (String, String)| (e.0@, e.1@)) == shell_env(h)
            &&& p.cwd@ == h
            &&& p.rows == DEFAULT_ROWS
            &&& p.cols == DEFAULT_COLS
        }),
{
    if !shell_exists {
        return Err("refusing to spawn terminal: /bin/bash not found".to_owned());
    }
    let home = match home {
        Some(h) => h,
        None => "/".to_owned(),
    };
    let mut env: Vec<(String, String)> = Vec::new();
    env.push(pair("PATH", SHELL_ENV_PATH));
    env.push(pair("TERM", "xterm-256color"));
    env.push(pair("LANG", "C.UTF-8"));
    env.push(("HOME".to_owned(), home.clone()));
    let ghost h = home@;
    proof {
        reveal_strlit("/usr/local/bin:/usr/bin:/bin");
    }
    assert(env@.map_values(|e: (String, String)| (e.0@, e.1@)) =~= shell_env(h));
    Ok(ShellPlan { program: SHELL_PATH.to_owned(), env, cwd: home, rows: DEFAULT_ROWS, cols: DEFAULT_COLS })
}

/// A frame from the client, as the socket layer decoded it.
pub enum ClientFrame {
    /// Keystroke bytes.
    Binary(Vec<u8>),
    /// A text frame that is a resize control message.
    Resize { cols: u16, rows: u16 },
    /// Any other text frame.
    Text,
    /// The client closed the socket.
    Close,
    /// Ping, pong and the like.
    Other,
}

/// What the session does with a client frame.
pub enum FrameAction {
    /// Write the bytes to the shell's input.
    Write(Vec<u8>),
    /// Resize the terminal.
    Resize { cols: u16, rows: u16 },
    /// Nothing.
    Ignore,
    /// End the session.
    Stop,
}

/// The action for a client frame: keystrokes go to the shell, a resize
/// message resizes, a close ends the session, anything else is ignored.
pub open spec fn frame_action(frame: ClientFrame) -> FrameAction {
    match frame {
        ClientFrame::Binary(b) => FrameAction::Write(b),
        ClientFrame::Resize { cols, rows } => FrameAction::Resize { cols, rows },
        ClientFrame::Close => FrameAction::Stop,
        _ => FrameAction::Ignore,
    }
}

/// The action for a client frame, as [`frame_action`] gives it.
pub fn on_client_frame(frame: ClientFrame) -> (a: FrameAction)
    ensures
        a == frame_action(frame),
{
    match frame {
        ClientFrame::Binary(b) => FrameAction::Write(b),
        ClientFrame::Resize { cols, rows } => FrameAction::Resize { cols, rows },
        ClientFrame::Close => FrameAction::Stop,
        ClientFrame::Text => FrameAction::Ignore,
        ClientFrame::Other => FrameAction::Ignore,
    }
}

/// What a session has done after a run of client frames: the bytes written
/// to the shell's input, the sizes the terminal was set to, and whether the
/// session has ended.
pub ghost struct SessionEffects {
    pub written: Seq<u8>,
    pub resizes: Seq<(u16, u16)>,
    pub closed: bool,
}

/// The effect of the client frames `frames`, received in order, each handled
/// by the action [`on_client_frame`] gives it; nothing after the session has
/// ended has any effect.
pub open spec fn session_effects(frames: Seq<ClientFrame>) -> SessionEffects
    decreases frames.len(),
{
    if frames.len() == 0 {
        SessionEffects { written: Seq::empty(), resizes: Seq::empty(), closed: false }
    } else {
        let before = session_effects(frames.drop_last());
        if before.closed {
            before
        } else {
            match frame_action(frames.last()) {
                FrameAction::Write(b) => SessionEffects { written: before.written + b@, ..before },
                FrameAction::Resize { cols, rows } => SessionEffects { resizes: before.resizes.push((cols, rows)), ..before },
                FrameAction::Stop => SessionEffects { closed: true, ..before },
                FrameAction::Ignore => before,
            }
        }
    }
}

/// The payload of a binary frame.
pub open spec fn binary_payload(frame: ClientFrame) -> Option<Seq<u8>> {
    match frame {
        ClientFrame::Binary(b) => Some(b@),
        _ => None,
    }
}

/// The size a resize frame asks for, as (columns, rows).
pub open spec fn resize_size(frame: ClientFrame) -> Option<(u16, u16)> {
    match frame {
        ClientFrame::Resize { cols, rows } => Some((cols, rows)),
        _ => None,
    }
}

proof fn lemma_flatten_push(a: Seq<Seq<u8>>, b: Seq<u8>)
    ensures
        a.push(b).flatten() == a.flatten() + b,
    decreases a.len(),
{
    if a.len() == 0 {
        assert(a.push(b).drop_first() =~= Seq::<Seq<u8>>::empty());
        assert(a.push(b).drop_first().flatten() == Seq::<u8>::empty());
        assert(a.push(b).first() == b);
        assert(a.push(b).flatten() =~= a.flatten() + b);
    } else {
        lemma_flatten_push(a.drop_first(), b);
        assert(a.push(b).drop_first() =~= a.drop_first().push(b));
        assert(a.push(b).first() == a.first());
        assert(a.push(b).flatten() == a.first() + (a.drop_first().flatten() + b));
        assert(a.first() + (a.drop_first().flatten() + b) =~= (a.first() + a.drop_first().flatten()) + b);
    }
}

/// Over a session whose first close frame, if any, is at index `n` (`n` is
/// the number of frames where there is none): the bytes written to the shell
/// are the payloads of the binary frames before `n`, concatenated in arrival
/// order and unchanged; the terminal is resized once for each resize frame
/// before `n`, in order; other frames have no effect; and the session has
/// ended exactly when a close frame arrived.
pub proof fn lemma_session_effects(frames: Seq<ClientFrame>, n: int)
    requires
        0 <= n <= frames.len(),
        forall|i: int| 0 <= i < n ==> !(#[trigger] frames[i] is Close),
        n < frames.len() ==> frames[n] is Close,
    ensures
        session_effects(frames).written == frames.take(n).filter_map(|f: ClientFrame| binary_payload(f)).flatten(),
        session_effects(frames).resizes == frames.take(n).filter_map(|f: ClientFrame| resize_size(f)),
        session_effects(frames).closed == (n < frames.len()),
    decreases frames.len(),
{
    let bp = |f: ClientFrame| binary_payload(f);
    let rs = |f: ClientFrame| resize_size(f);
    if frames.len() == 0 {
        assert(frames.take(n) =~= Seq::<ClientFrame>::empty());
    } else {
        let p = frames.drop_last();
        let l = frames.len() - 1;
        if n == frames.len() {
            lemma_session_effects(p, l);
            assert(frames.take(n) =~= frames);
            assert(p.take(l) =~= p);
            assert(frames.drop_last() =~= p);
            assert(!(frames[l] is Close));
            let wp = p.filter_map(bp);
            match frames.last() {
                ClientFrame::Binary(b) => {
                    assert(frames.filter_map(bp) == wp + seq![b@]);
                    assert(wp + seq![b@] =~= wp.push(b@));
                    lemma_flatten_push(wp, b@);
                    assert(frames.filter_map(rs) == p.filter_map(rs));
                },
                ClientFrame::Resize { cols, rows } => {
                    assert(frames.filter_map(bp) == wp);
                    assert(frames.filter_map(rs) == p.filter_map(rs) + seq![(cols, rows)]);
                    assert(p.filter_map(rs) + seq![(cols, rows)] =~= p.filter_map(rs).push((cols, rows)));
                },
                _ => {
                    assert(frames.filter_map(bp) == wp);
                    assert(frames.filter_map(rs) == p.filter_map(rs));
                },
            }
        } else if n == l {
            lemma_session_effects(p, l);
            assert(frames.take(n) =~= p);
            assert(p.take(l) =~= p);
        } else {
            assert forall|i: int| 0 <= i < n implies !(#[trigger] p[i] is Close) by {
                assert(p[i] == frames[i]);
            }
            assert(p[n] == frames[n]);
            lemma_session_effects(p, n);
            assert(frames.take(n) =~= p.take(n));
        }
    }
}

} // verus!
