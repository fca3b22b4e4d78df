//! The settings of the application, and saving them together with what the
//! operating system keeps: a password or a start-up entry.

use crate::fault::{caused, detailed, refusal, Fault, FaultKind, FaultView};
use crate::text::{concat3, duplicate_option, opt_view, trim, trimmed, Class, Duplicate};
use crate::webdav::{Conflict, WebDavSettings, WebDavSettingsView};
use vstd::prelude::*;

verus! {

/// What the application remembers.
#[derive(Clone, Debug)]
pub struct Settings {
    pub directory: String,
    pub watching: bool,
    /// The server; its password is kept by the operating system.
    pub webdav: Option<WebDavSettings>,
    pub autostart: bool,
    pub start_minimized: bool,
}

/// What a `Settings` holds.
#[verifier::ext_equal]
pub ghost struct SettingsView {
    pub directory: Seq<char>,
    pub watching: bool,
    pub webdav: Option<WebDavSettingsView>,
    pub autostart: bool,
    pub start_minimized: bool,
}

impl View for Settings {
    type V = SettingsView;

    open spec fn view(&self) -> SettingsView {
        SettingsView {
            directory: self.directory@,
            watching: self.watching,
            webdav: opt_view(self.webdav),
            autostart: self.autostart,
            start_minimized: self.start_minimized,
        }
    }
}

impl Duplicate for Settings {
    fn duplicate(&self) -> (r: Self) {
        Settings {
            directory: self.directory.clone(),
            watching: self.watching,
            webdav: duplicate_option(&self.webdav),
            autostart: self.autostart,
            start_minimized: self.start_minimized,
        }
    }
}

impl Default for Settings {
    fn default() -> (r: Self)
        ensures
            r@.directory.len() == 0,
            !r.watching,
            r.webdav is None,
            !r.autostart,
            !r.start_minimized,
    {
        Settings {
            directory: String::new(),
            watching: false,
            webdav: None,
            autostart: false,
            start_minimized: false,
        }
    }
}

/// The name under which the password of a server is kept.
pub open spec fn password_key(c: WebDavSettingsView) -> Seq<char> {
    c.url + "#"@ + c.remote_path
}

/// The name under which the password of a server is kept.
pub fn credential_name(c: &WebDavSettings) -> (r: String)
    ensures
        r@ == password_key(c@),
{
    concat3(c.url.as_str(), "#", c.remote_path.as_str())
}

/// The password that a form stands for: what was typed, else what is kept for
/// the server as it was saved, else none. `read` looks up what is kept; it is
/// asked at most once, for the saved server, and only where nothing was typed.
pub fn resolve_webdav_password<R: FnOnce(&str) -> Result<String, String>>(
    input: &str,
    original: Option<&WebDavSettings>,
    read: R,
) -> (r: Result<String, String>)
    requires
        input@.len() == 0 && original is Some ==> forall|key: &str|
            key@ == password_key(original->0@) ==> #[trigger] call_requires(read, (key,)),
    ensures
        input@.len() > 0 ==> r is Ok && r->Ok_0@ == input@,
        input@.len() == 0 && original is None ==> r is Ok && r->Ok_0@.len() == 0,
        input@.len() == 0 && original is Some ==> exists|key: &str|
            key@ == password_key(original->0@) && #[trigger] call_ensures(read, (key,), r),
{
    if !input.is_empty() {
        return Ok(input.to_owned());
    }
    match original {
        Some(c) => {
            let key = credential_name(c);
            let k = key.as_str();
            let r = read(k);
            proof {
                assert(k@ == password_key(original->0@) && call_ensures(read, (k,), r));
            }
            r
        },
        None => Ok(String::new()),
    }
}

/// The settings of a server as its form gives them.
pub open spec fn server_form(url: Seq<char>, path: Seq<char>, user: Seq<char>) -> WebDavSettingsView {
    WebDavSettingsView {
        enabled: true,
        url: trim(url, Class::White),
        remote_path: trim(path, Class::White),
        username: trim(user, Class::White),
    }
}

/// The settings of a server as its form gives them, where they are valid.
pub fn webdav_form(url: &str, path: &str, user: &str) -> (r: Result<WebDavSettings, Fault>)
    ensures
        (match r {
            Ok(c) => c@ == server_form(url@, path@, user@) && c@.fault() is None,
            Err(f) => server_form(url@, path@, user@).fault() == Some(f@),
        }),
{
    let c = WebDavSettings {
        enabled: true,
        url: trimmed(url, Class::White),
        remote_path: trimmed(path, Class::White),
        username: trimmed(user, Class::White),
    };
    proof {
        assert(c@ =~= server_form(url@, path@, user@));
    }
    if let Err(f) = c.validate() {
        return Err(f);
    }
    Ok(c)
}

/// How saving a server ended.
pub ghost enum SaveEnd {
    Saved,
    Refused(FaultView),
}

pub open spec fn save_end(r: Result<(), Fault>) -> SaveEnd {
    match r {
        Ok(_) => SaveEnd::Saved,
        Err(f) => SaveEnd::Refused(f@),
    }
}

/// How saving a server ends, from what each step returned: looking up the
/// password that is kept, keeping the new one, writing the settings, and putting
/// the old password back.
pub open spec fn server_saved(
    looked: Result<Option<String>, String>,
    kept: Result<(), String>,
    written: Result<(), String>,
    restored: Result<(), String>,
) -> SaveEnd {
    if looked is Err {
        SaveEnd::Refused(refusal(FaultKind::System, looked->Err_0@))
    } else if kept is Err {
        SaveEnd::Refused(caused(FaultKind::PasswordSave, Seq::empty(), Seq::empty(), kept->Err_0@))
    } else if written is Ok {
        SaveEnd::Saved
    } else if restored is Err {
        SaveEnd::Refused(
            detailed(FaultKind::ConfigNotRestored, written->Err_0@, restored->Err_0@),
        )
    } else {
        SaveEnd::Refused(caused(FaultKind::ConfigSave, Seq::empty(), Seq::empty(), written->Err_0@))
    }
}

/// What saving a server ends with, from what each step returned; the steps that
/// were not reached do not count.
pub fn server_save_end(
    looked: &Result<Option<String>, String>,
    kept: &Result<(), String>,
    written: &Result<(), String>,
    restored: &Result<(), String>,
) -> (r: Result<(), Fault>)
    ensures
        save_end(r) == server_saved(*looked, *kept, *written, *restored),
{
    if let Err(e) = looked {
        return Err(Fault::new(FaultKind::System, e.as_str()));
    }
    let none = String::new();
    proof {
        assert(none@ =~= Seq::<char>::empty());
    }
    if let Err(e) = kept {
        return Err(
            Fault::with_cause(FaultKind::PasswordSave, none.as_str(), none.as_str(), e.as_str()),
        );
    }
    match written {
        Ok(_) => Ok(()),
        Err(e) => match restored {
            Err(b) => Err(Fault::with_detail(FaultKind::ConfigNotRestored, e.as_str(), b.as_str())),
            Ok(_) => Err(
                Fault::with_cause(FaultKind::ConfigSave, none.as_str(), none.as_str(), e.as_str()),
            ),
        },
    }
}

/// Whether looking up a password gave this.
pub open spec fn found<R: FnOnce(&str) -> Result<Option<String>, String>>(
    read: R,
    key: Seq<char>,
    looked: Result<Option<String>, String>,
) -> bool {
    exists|k: &str| k@ == key && #[trigger] call_ensures(read, (k,), looked)
}

/// Whether keeping a password gave this.
pub open spec fn stored<W: FnOnce(&str, &str) -> Result<(), String>>(
    write: W,
    key: Seq<char>,
    password: Seq<char>,
    done: Result<(), String>,
) -> bool {
    exists|k: &str, p: &str|
        k@ == key && p@ == password && #[trigger] call_ensures(write, (k, p), done)
}

/// Whether deleting a password gave this.
pub open spec fn removed<D: FnOnce(&str) -> Result<(), String>>(
    delete: D,
    key: Seq<char>,
    done: Result<(), String>,
) -> bool {
    exists|k: &str| k@ == key && #[trigger] call_ensures(delete, (k,), done)
}

/// Whether writing the settings gave this.
pub open spec fn recorded<S: FnOnce(&Settings) -> Result<(), String>>(
    save: S,
    settings: SettingsView,
    done: Result<(), String>,
) -> bool {
    exists|s: &Settings| s@ == settings && #[trigger] call_ensures(save, (s,), done)
}

/// Whether looking up a password gave a password, or that there is none.
pub open spec fn has_looked<R: FnOnce(&str) -> Result<Option<String>, String>>(
    read: R,
    key: Seq<char>,
) -> bool {
    exists|was: Option<String>| #[trigger] found(read, key, Ok(was))
}

/// Whether a password was kept.
pub open spec fn has_stored<W: FnOnce(&str, &str) -> Result<(), String>>(
    write: W,
    key: Seq<char>,
    password: Seq<char>,
) -> bool {
    exists|done: Result<(), String>| #[trigger] stored(write, key, password, done) && done is Ok
}

/// Whether writing the settings failed.
pub open spec fn save_failed<S: FnOnce(&Settings) -> Result<(), String>>(
    save: S,
    settings: SettingsView,
) -> bool {
    exists|done: Result<(), String>| #[trigger] recorded(save, settings, done) && done is Err
}

/// Whether the steps of saving a server returned this: the password that is kept
/// was looked up, the new one kept, the settings written, and where that failed
/// the old password put back or the new one deleted.
pub open spec fn server_steps<
    R: FnOnce(&str) -> Result<Option<String>, String>,
    W: FnOnce(&str, &str) -> Result<(), String>,
    B: FnOnce(&str, &str) -> Result<(), String>,
    D: FnOnce(&str) -> Result<(), String>,
    S: FnOnce(&Settings) -> Result<(), String>,
>(
    key: Seq<char>,
    password: Seq<char>,
    updated: SettingsView,
    read: R,
    write: W,
    restore: B,
    delete: D,
    save: S,
    looked: Result<Option<String>, String>,
    kept: Result<(), String>,
    written: Result<(), String>,
    restored: Result<(), String>,
) -> bool {
    &&& found(read, key, looked)
    &&& looked is Ok ==> stored(write, key, password, kept)
    &&& looked is Ok && kept is Ok ==> recorded(save, updated, written)
    &&& looked is Ok && kept is Ok && written is Err ==> match looked->Ok_0 {
        Some(old) => stored(restore, key, old@, restored),
        None => removed(delete, key, restored),
    }
}

/// Saves a server with its password. The settings change only where all
/// succeeded; where the settings cannot be written the password that was kept is
/// put back. Invalid settings reach none of the steps.
///
/// Each step can be taken once and is taken only in its turn: the new password is
/// kept after the old one was looked up, the settings are written after the new
/// password was kept, and the old password is put back by `restore`, or the new one
/// taken away by `delete`, after the settings could not be written.
pub fn persist_webdav_config<
    R: FnOnce(&str) -> Result<Option<String>, String>,
    W: FnOnce(&str, &str) -> Result<(), String>,
    B: FnOnce(&str, &str) -> Result<(), String>,
    D: FnOnce(&str) -> Result<(), String>,
    S: FnOnce(&Settings) -> Result<(), String>,
>(
    settings: &mut Settings,
    config: WebDavSettings,
    password: &str,
    read: R,
    write: W,
    restore: B,
    delete: D,
    save: S,
) -> (r: Result<(), Fault>)
    requires
        config@.fault() is None ==> forall|k: &str|
            k@ == password_key(config@) ==> #[trigger] call_requires(read, (k,)),
        config@.fault() is None ==> forall|k: &str, p: &str|
            k@ == password_key(config@) && p@ == password@ && has_looked(
                read,
                password_key(config@),
            ) ==> #[trigger] call_requires(write, (k, p)),
        config@.fault() is None ==> forall|s: &Settings|
            s@ == (SettingsView { webdav: Some(config@), ..old(settings)@ }) && has_stored(
                write,
                password_key(config@),
                password@,
            ) ==> #[trigger] call_requires(save, (s,)),
        config@.fault() is None ==> forall|k: &str, p: &str, was: String|
            k@ == password_key(config@) && p@ == was@ && #[trigger] found(
                read,
                password_key(config@),
                Ok(Some(was)),
            ) && save_failed(save, SettingsView { webdav: Some(config@), ..old(settings)@ })
                ==> #[trigger] call_requires(restore, (k, p)),
        config@.fault() is None ==> forall|k: &str|
            k@ == password_key(config@) && found(read, password_key(config@), Ok(None))
                && save_failed(save, SettingsView { webdav: Some(config@), ..old(settings)@ })
                ==> #[trigger] call_requires(delete, (k,)),
    ensures
        ({
            let updated = SettingsView { webdav: Some(config@), ..old(settings)@ };
            &&& final(settings)@ == if r is Ok {
                updated
            } else {
                old(settings)@
            }
            &&& match config@.fault() {
                Some(f) => save_end(r) == SaveEnd::Refused(f),
                None => exists|
                    looked: Result<Option<String>, String>,
                    kept: Result<(), String>,
                    written: Result<(), String>,
                    restored: Result<(), String>,
                |
                    #[trigger] server_steps(
                        password_key(config@),
                        password@,
                        updated,
                        read,
                        write,
                        restore,
                        delete,
                        save,
                        looked,
                        kept,
                        written,
                        restored,
                    ) && save_end(r) == server_saved(looked, kept, written, restored),
            }
        }),
{
    if let Err(f) = config.validate() {
        return Err(f);
    }
    let ghost cv = config@;
    let ghost was = settings@;
    let target = credential_name(&config);
    let key = target.as_str();
    let mut updated = settings.duplicate();
    updated.webdav = Some(config);
    proof {
        assert(updated@ =~= (SettingsView { webdav: Some(cv), ..was }));
    }
    let mut kept: Result<(), String> = Ok(());
    let mut written: Result<(), String> = Ok(());
    let mut restored: Result<(), String> = Ok(());
    let looked = read(key);
    proof {
        assert(found(read, key@, looked)) by {
            assert(key@ == password_key(cv) && call_ensures(read, (key,), looked));
        }
    }
    if let Ok(previous) = &looked {
        kept = write(key, password);
        proof {
            assert(stored(write, key@, password@, kept)) by {
                assert(key@ == key@ && password@ == password@ && call_ensures(
                    write,
                    (key, password),
                    kept,
                ));
            }
        }
        if kept.is_ok() {
            let next = &updated;
            written = save(next);
            proof {
                assert(recorded(save, updated@, written)) by {
                    assert(next@ == updated@ && call_ensures(save, (next,), written));
                }
            }
            if written.is_err() {
                match previous {
                    Some(old_password) => {
                        let p = old_password.as_str();
                        proof {
                            assert(found(read, key@, Ok(Some(*old_password))));
                        }
                        restored = restore(key, p);
                        proof {
                            assert(stored(restore, key@, p@, restored)) by {
                                assert(key@ == key@ && p@ == p@ && call_ensures(
                                    restore,
                                    (key, p),
                                    restored,
                                ));
                            }
                        }
                    },
                    None => {
                        restored = delete(key);
                        proof {
                            assert(removed(delete, key@, restored)) by {
                                assert(key@ == key@ && call_ensures(delete, (key,), restored));
                            }
                        }
                    },
                }
            }
        }
    }
    let end = server_save_end(&looked, &kept, &written, &restored);
    proof {
        assert(server_steps(
            password_key(cv),
            password@,
            updated@,
            read,
            write,
            restore,
            delete,
            save,
            looked,
            kept,
            written,
            restored,
        ));
    }
    if end.is_ok() {
        *settings = updated;
    }
    end
}

/// How saving the start-up entry ends, from what each step returned: looking up
/// the entry, writing the new one, writing the settings, and putting the old
/// entry back.
pub open spec fn startup_saved(
    looked: Result<Option<String>, String>,
    entered: Result<(), String>,
    written: Result<(), String>,
    restored: Result<(), String>,
) -> SaveEnd {
    if looked is Err {
        SaveEnd::Refused(caused(FaultKind::StartupRead, Seq::empty(), Seq::empty(), looked->Err_0@))
    } else if entered is Err {
        if restored is Err {
            SaveEnd::Refused(
                detailed(FaultKind::StartupNotRestored, entered->Err_0@, restored->Err_0@),
            )
        } else {
            SaveEnd::Refused(
                caused(FaultKind::StartupSave, Seq::empty(), Seq::empty(), entered->Err_0@),
            )
        }
    } else if written is Ok {
        SaveEnd::Saved
    } else if restored is Err {
        SaveEnd::Refused(
            detailed(FaultKind::SettingsNotRestored, written->Err_0@, restored->Err_0@),
        )
    } else {
        SaveEnd::Refused(refusal(FaultKind::SettingsSave, written->Err_0@))
    }
}

/// What saving the start-up entry ends with, from what each step returned; the
/// steps that were not reached do not count.
pub fn startup_save_end(
    looked: &Result<Option<String>, String>,
    entered: &Result<(), String>,
    written: &Result<(), String>,
    restored: &Result<(), String>,
) -> (r: Result<(), Fault>)
    ensures
        save_end(r) == startup_saved(*looked, *entered, *written, *restored),
{
    let none = String::new();
    proof {
        assert(none@ =~= Seq::<char>::empty());
    }
    if let Err(e) = looked {
        return Err(
            Fault::with_cause(FaultKind::StartupRead, none.as_str(), none.as_str(), e.as_str()),
        );
    }
    if let Err(e) = entered {
        return match restored {
            Err(b) => Err(
                Fault::with_detail(FaultKind::StartupNotRestored, e.as_str(), b.as_str()),
            ),
            Ok(_) => Err(
                Fault::with_cause(FaultKind::StartupSave, none.as_str(), none.as_str(), e.as_str()),
            ),
        };
    }
    match written {
        Ok(_) => Ok(()),
        Err(e) => match restored {
            Err(b) => Err(
                Fault::with_detail(FaultKind::SettingsNotRestored, e.as_str(), b.as_str()),
            ),
            Ok(_) => Err(Fault::new(FaultKind::SettingsSave, e.as_str())),
        },
    }
}

/// Whether writing a start-up entry gave this.
pub open spec fn registered<W: FnOnce(&Option<String>) -> Result<(), String>>(
    write: W,
    command: Option<Seq<char>>,
    done: Result<(), String>,
) -> bool {
    exists|c: &Option<String>|
        opt_view(*c) == command && #[trigger] call_ensures(write, (c,), done)
}

/// Whether the steps of saving the start-up entry returned this: the entry was
/// looked up, the new one written, the settings written, and where either failed
/// the old entry put back.
pub open spec fn startup_steps<
    R: FnOnce() -> Result<Option<String>, String>,
    W: FnOnce(&Option<String>) -> Result<(), String>,
    B: FnOnce(&Option<String>) -> Result<(), String>,
    S: FnOnce() -> Result<(), String>,
>(
    command: Option<Seq<char>>,
    read: R,
    write: W,
    restore: B,
    save: S,
    looked: Result<Option<String>, String>,
    entered: Result<(), String>,
    written: Result<(), String>,
    restored: Result<(), String>,
) -> bool {
    &&& call_ensures(read, (), looked)
    &&& looked is Ok ==> registered(write, command, entered)
    &&& looked is Ok && entered is Ok ==> call_ensures(save, (), written)
    &&& looked is Ok && (entered is Err || written is Err) ==> registered(
        restore,
        opt_view(looked->Ok_0),
        restored,
    )
}

/// Whether a start-up entry was written.
pub open spec fn has_registered<W: FnOnce(&Option<String>) -> Result<(), String>>(
    write: W,
    command: Option<Seq<char>>,
) -> bool {
    exists|done: Result<(), String>| #[trigger] registered(write, command, done) && done is Ok
}

/// Whether the new start-up entry or the settings could not be written.
pub open spec fn startup_failed<
    W: FnOnce(&Option<String>) -> Result<(), String>,
    S: FnOnce() -> Result<(), String>,
>(command: Option<Seq<char>>, write: W, save: S) -> bool {
    ||| exists|done: Result<(), String>| #[trigger] registered(write, command, done) && done is Err
    ||| exists|done: Result<(), String>| #[trigger] call_ensures(save, (), done) && done is Err
}

/// Saves the start-up entry together with the settings; where either fails the
/// entry is put back as it was.
///
/// Each step can be taken once and is taken only in its turn: the new entry is
/// written after the old one was looked up, the settings after the new entry was
/// written, and the old entry is put back by `restore` after one of these failed.
pub fn persist_startup<
    R: FnOnce() -> Result<Option<String>, String>,
    W: FnOnce(&Option<String>) -> Result<(), String>,
    B: FnOnce(&Option<String>) -> Result<(), String>,
    S: FnOnce() -> Result<(), String>,
>(command: &Option<String>, read: R, write: W, restore: B, save: S) -> (r: Result<(), Fault>)
    requires
        call_requires(read, ()),
        forall|c: &Option<String>, was: Option<String>|
            opt_view(*c) == opt_view(*command) && #[trigger] call_ensures(read, (), Ok(was))
                ==> #[trigger] call_requires(write, (c,)),
        has_registered(write, opt_view(*command)) ==> call_requires(save, ()),
        forall|c: &Option<String>, was: Option<String>|
            opt_view(*c) == opt_view(was) && #[trigger] call_ensures(read, (), Ok(was))
                && startup_failed(opt_view(*command), write, save) ==> #[trigger] call_requires(
                restore,
                (c,),
            ),
    ensures
        exists|
            looked: Result<Option<String>, String>,
            entered: Result<(), String>,
            written: Result<(), String>,
            restored: Result<(), String>,
        |
            #[trigger] startup_steps(
                opt_view(*command),
                read,
                write,
                restore,
                save,
                looked,
                entered,
                written,
                restored,
            ) && save_end(r) == startup_saved(looked, entered, written, restored),
{
    let mut entered: Result<(), String> = Ok(());
    let mut written: Result<(), String> = Ok(());
    let mut restored: Result<(), String> = Ok(());
    let ghost new = opt_view(*command);
    let looked = read();
    if let Ok(previous) = &looked {
        proof {
            assert(call_ensures(read, (), Ok(*previous)));
        }
        entered = write(command);
        proof {
            assert(registered(write, new, entered)) by {
                assert(opt_view(*command) == new && call_ensures(write, (command,), entered));
            }
        }
        if entered.is_ok() {
            written = save();
        }
        if entered.is_err() || written.is_err() {
            restored = restore(previous);
            proof {
                assert(registered(restore, opt_view(*previous), restored)) by {
                    assert(opt_view(*previous) == opt_view(*previous) && call_ensures(
                        restore,
                        (previous,),
                        restored,
                    ));
                }
            }
        }
    }
    proof {
        assert(startup_steps(
            opt_view(*command),
            read,
            write,
            restore,
            save,
            looked,
            entered,
            written,
            restored,
        ));
    }
    startup_save_end(&looked, &entered, &written, &restored)
}

/// What is done when both sides may have changed.
#[derive(Clone, Copy, Debug, PartialEq, Eq, Structural)]
pub enum SyncStep {
    /// The rules of the server are taken over.
    Download,
    /// The user has to say which side counts.
    Ask,
    /// Nothing changes, and the user is told why.
    UpToDate,
    LocalNewer,
    KeepLocal,
    Cancelled,
}

/// What the user says when both sides changed.
#[derive(Clone, Copy, Debug, PartialEq, Eq, Structural)]
pub enum Side {
    Local,
    Remote,
    Neither,
}

/// What follows from which sides changed.
pub fn sync_step(conflict: Conflict) -> (r: SyncStep)
    ensures
        r == (match conflict {
            Conflict::UpToDate => SyncStep::UpToDate,
            Conflict::LocalOnly => SyncStep::LocalNewer,
            Conflict::RemoteOnly => SyncStep::Download,
            Conflict::BothChanged => SyncStep::Ask,
        }),
{
    match conflict {
        Conflict::UpToDate => SyncStep::UpToDate,
        Conflict::LocalOnly => SyncStep::LocalNewer,
        Conflict::RemoteOnly => SyncStep::Download,
        Conflict::BothChanged => SyncStep::Ask,
    }
}

/// What follows from the user's answer.
pub fn answered_step(side: Side) -> (r: SyncStep)
    ensures
        r == (match side {
            Side::Local => SyncStep::KeepLocal,
            Side::Remote => SyncStep::Download,
            Side::Neither => SyncStep::Cancelled,
        }),
{
    match side {
        Side::Local => SyncStep::KeepLocal,
        Side::Remote => SyncStep::Download,
        Side::Neither => SyncStep::Cancelled,
    }
}

/// What the user is told of a step.
pub open spec fn step_message(step: SyncStep) -> Seq<char> {
    match step {
        SyncStep::Download => "规则已下载并保存"@,
        SyncStep::Ask => "本地和远端规则均有更新。是=保留本地并上传，否=保留远端并下载，取消=不改变。"@,
        SyncStep::UpToDate => "规则已是最新"@,
        SyncStep::LocalNewer => "本地规则有更新，请使用上传规则"@,
        SyncStep::KeepLocal => "请使用上传规则完成本地覆盖"@,
        SyncStep::Cancelled => "已取消同步"@,
    }
}

impl SyncStep {
    /// What the user is told.
    pub fn message(self) -> (r: String)
        ensures
            r@ == step_message(self),
    {
        match self {
            SyncStep::Download => "规则已下载并保存".to_owned(),
            SyncStep::Ask => {
                "本地和远端规则均有更新。是=保留本地并上传，否=保留远端并下载，取消=不改变。".to_owned()
            },
            SyncStep::UpToDate => "规则已是最新".to_owned(),
            SyncStep::LocalNewer => "本地规则有更新，请使用上传规则".to_owned(),
            SyncStep::KeepLocal => "请使用上传规则完成本地覆盖".to_owned(),
            SyncStep::Cancelled => "已取消同步".to_owned(),
        }
    }
}

} // verus!
