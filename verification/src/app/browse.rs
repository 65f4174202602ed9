//! The browser, and choosing inputs.

use vstd::prelude::*;
use crate::app::forms::form_opened;
use crate::app::{
    deeds, highlight_probed, no_effects, one_effect, opened, probes_deeds, with_probes, App, Deed,
    Effect, Facts, Screen,
};
use crate::key::{KeyCode, KeyEvent, ALL_MODIFIERS};
use crate::path::parent;
use crate::text::{copy_text, opt_text, texts};
use crate::time::Duration;
use crate::ui::screens::file_browser::{
    browser_keyed, entries_of, found, found_means, opt_str, Browser, BrowserAction, BrowserState,
    BrowserStep, DirEntry, Entry, PathKind,
};

verus! {

/// Whether nothing was done.
pub open spec fn idle(before: App, after: App, d: Seq<Deed>) -> bool {
    after == before && d == Seq::<Deed>::empty()
}

/// Whether only the screen changed.
pub open spec fn shows(before: App, after: App, screen: Screen, d: Seq<Deed>) -> bool {
    after == (App { screen, ..before }) && d == Seq::<Deed>::empty()
}

/// The help over a screen.
pub open spec fn help_over(screen: Screen) -> Screen {
    Screen::Help { return_to: Box::new(screen) }
}

/// Whether the screen changed and the status line was cleared.
pub open spec fn goes_to(before: App, after: App, screen: Screen, d: Seq<Deed>) -> bool {
    after == (App { screen, status_message: None, ..before }) && d == Seq::<Deed>::empty()
}

// ---------------------------------------------------------------------------
// The browser
// ---------------------------------------------------------------------------

/// The directories that are tried when the first cannot be read.
pub open spec fn fallbacks(home: Option<Seq<char>>) -> Seq<Seq<char>> {
    match home {
        Some(h) => seq![h, "/"@],
        None => seq!["/"@],
    }
}

/// Whether the browser was opened, and is shown.
pub open spec fn browser_opened(before: App, after: App, facts: Facts, d: Seq<Deed>) -> bool {
    &&& after == (App {
        browser: after.browser,
        screen: Screen::FileBrowser,
        status_message: None,
        ..before
    })
    &&& after.browser@ == opened(facts.start_dir@)
    &&& d == seq![Deed::Open(facts.start_dir@, fallbacks(opt_str(facts.home)))]
}

/// Whether a directory is to be read, or else the highlighted file was probed.
pub open spec fn listed_or_probed(before: App, list: bool, after: App, d: Seq<Deed>) -> bool {
    if list {
        after == before && d == seq![Deed::List(before.browser@.cwd)]
    } else {
        highlight_probed(before, after, d)
    }
}

/// What is to be done for a directory that is to be read.
pub open spec fn list_deeds(b: Browser, list: bool) -> Seq<Deed> {
    if list {
        seq![Deed::List(b.cwd)]
    } else {
        Seq::empty()
    }
}

/// Whether inputs were chosen: they are probed, and the form over them is
/// opened and shown.
pub open spec fn inputs_chosen(
    before: App,
    inputs: Seq<Seq<char>>,
    now: Duration,
    temp: Seq<char>,
    after: App,
    d: Seq<Deed>,
) -> bool {
    let asked = App { probes: after.probes, form_inputs: after.form_inputs, ..before };
    &&& after.probes@ == with_probes(before.probes@, inputs)
    &&& texts(after.form_inputs@) == inputs
    &&& d == probes_deeds(before.probes@, before.ffprobe(), inputs)
    &&& exists|mid: App| #[trigger]
        form_opened(asked, mid, now, temp) && after == (App {
            screen: Screen::ParameterForm,
            status_message: None,
            ..mid
        })
}

/// What a step of the browser does.
pub open spec fn browser_stepped(
    before: App,
    list: bool,
    action: BrowserAction,
    now: Duration,
    temp: Seq<char>,
    after: App,
    d: Seq<Deed>,
) -> bool {
    match action {
        BrowserAction::Nothing => listed_or_probed(before, list, after, d),
        BrowserAction::Status(message) => {
            &&& opt_text(after.status_message) == Some(message@)
            &&& listed_or_probed(
                App { status_message: after.status_message, ..before },
                list,
                after,
                d,
            )
        },
        BrowserAction::Back => {
            &&& after == (App {
                screen: Screen::OperationPicker,
                status_message: None,
                ..before
            })
            &&& d == list_deeds(before.browser@, list)
        },
        BrowserAction::Confirmed(inputs) => {
            exists|more: Seq<Deed>| #[trigger]
                inputs_chosen(before, texts(inputs@), now, temp, after, more) && d == list_deeds(
                    before.browser@,
                    list,
                ) + more
        },
        BrowserAction::Look(path) => after == before && d == list_deeds(before.browser@, list)
            + seq![Deed::Look(path@)],
    }
}

/// What a key press in the browser does.
pub open spec fn browser_screen_keyed(
    before: App,
    key: KeyEvent,
    facts: Facts,
    after: App,
    d: Seq<Deed>,
) -> bool {
    if key.code == KeyCode::Char('?') {
        shows(before, after, help_over(Screen::FileBrowser), d)
    } else {
        exists|b: BrowserState, list: bool, action: BrowserAction|
            {
                &&& #[trigger] browser_keyed(
                    before.browser@,
                    key,
                    opt_str(facts.home),
                    b@,
                    list,
                    action,
                )
                &&& browser_stepped(
                    with_browser(before, b),
                    list,
                    action,
                    facts.now,
                    facts.temp_dir@,
                    after,
                    d,
                )
            }
    }
}

/// The application with another browser.
pub open spec fn with_browser(a: App, b: BrowserState) -> App {
    App { browser: b, ..a }
}

/// What a path that was looked at does.
pub open spec fn path_found(
    before: App,
    target: Seq<char>,
    kind: PathKind,
    now: Duration,
    temp: Seq<char>,
    after: App,
    d: Seq<Deed>,
) -> bool {
    exists|b: BrowserState, list: bool, action: BrowserAction|
        {
            &&& b@ == found(before.browser@, target, kind)
            &&& list == (kind is Directory || (kind is File && parent(target) is Some))
            &&& found_means(before.browser@, target, kind, action)
            &&& #[trigger] browser_stepped(
                with_browser(before, b),
                list,
                action,
                now,
                temp,
                after,
                d,
            )
        }
}

/// What the entries of a directory do: the list shows them, and the highlighted
/// file is probed while the browser is shown.
pub open spec fn browser_listed(
    before: App,
    listing: Result<Seq<Entry>, Seq<char>>,
    after: App,
    d: Seq<Deed>,
) -> bool {
    let shown = App { browser: after.browser, ..before };
    &&& after.browser@ == before.browser@.listed(listing)
    &&& if before.screen is FileBrowser {
        highlight_probed(shown, after, d)
    } else {
        idle(shown, after, d)
    }
}

/// A listing, by value.
pub open spec fn listing_of(l: Result<Vec<DirEntry>, String>) -> Result<
    Seq<Entry>,
    Seq<char>,
> {
    match l {
        Ok(v) => Ok(entries_of(v@)),
        Err(e) => Err(e@),
    }
}

/// Joins what is to be done.
fn joined_effects(first: Vec<Effect>, second: Vec<Effect>) -> (r: Vec<Effect>)
    ensures
        deeds(r@) == deeds(first@) + deeds(second@),
{
    let ghost a = deeds(first@);
    let ghost b = deeds(second@);
    let mut first = first;
    let mut second = second;
    first.append(&mut second);
    assert(deeds(first@) =~= a + b);
    first
}

impl App {
    /// Opens the browser.
    pub fn open_browser(&mut self, facts: &Facts) -> (r: Vec<Effect>)
        requires
            old(self).wf(),
        ensures
            final(self).wf(),
            browser_opened(*old(self), *final(self), *facts, deeds(r@)),
    {
        self.browser = BrowserState::open(copy_text(facts.start_dir));
        self.screen = Screen::FileBrowser;
        self.status_message = None;
        let mut others: Vec<String> = Vec::new();
        if let Some(home) = facts.home {
            others.push(copy_text(home));
        }
        others.push(copy_text("/"));
        assert(texts(others@) =~= fallbacks(opt_str(facts.home)));
        one_effect(Effect::Open { dir: copy_text(facts.start_dir), others })
    }

    /// Asks for a directory, or else for a probe of the highlighted file.
    fn list_or_probe(&mut self, list: bool) -> (r: Vec<Effect>)
        ensures
            listed_or_probed(*old(self), list, *final(self), deeds(r@)),
            old(self).wf() ==> final(self).wf(),
    {
        if list {
            one_effect(Effect::List(copy_text(self.browser.cwd.as_str())))
        } else {
            self.probe_highlighted()
        }
    }

    /// Takes in the inputs that were chosen.
    fn choose_inputs(&mut self, inputs: Vec<String>, now: Duration, temp_dir: &str) -> (r: Vec<
        Effect,
    >)
        requires
            old(self).wf(),
        ensures
            final(self).wf(),
            inputs_chosen(
                *old(self),
                texts(inputs@),
                now,
                temp_dir@,
                *final(self),
                deeds(r@),
            ),
    {
        let ghost before = *self;
        let r = self.ensure_probes(&inputs);
        self.form_inputs = inputs;
        let ghost asked = *self;
        self.open_form(now, temp_dir);
        let ghost mid = *self;
        self.screen = Screen::ParameterForm;
        self.status_message = None;
        proof {
            assert(asked == (App {
                probes: self.probes,
                form_inputs: self.form_inputs,
                ..before
            }));
            assert(form_opened(asked, mid, now, temp_dir@));
        }
        r
    }

    /// Does what a step of the browser asks for.
    fn step_browser(&mut self, step: BrowserStep, now: Duration, temp_dir: &str) -> (r: Vec<Effect>)
        requires
            old(self).wf(),
        ensures
            final(self).wf(),
            browser_stepped(
                *old(self),
                step.list,
                step.action,
                now,
                temp_dir@,
                *final(self),
                deeds(r@),
            ),
    {
        let list = step.list;
        let cwd = copy_text(self.browser.cwd.as_str());
        let first = if list {
            one_effect(Effect::List(cwd))
        } else {
            no_effects()
        };
        assert(deeds(first@) == list_deeds(self.browser@, list));
        match step.action {
            BrowserAction::Nothing => self.list_or_probe(list),
            BrowserAction::Status(message) => {
                self.status_message = Some(message);
                self.list_or_probe(list)
            },
            BrowserAction::Back => {
                self.screen = Screen::OperationPicker;
                self.status_message = None;
                first
            },
            BrowserAction::Confirmed(inputs) => {
                let ghost before = *self;
                let ghost names = texts(inputs@);
                let more = self.choose_inputs(inputs, now, temp_dir);
                assert(inputs_chosen(before, names, now, temp_dir@, *self, deeds(more@)));
                joined_effects(first, more)
            },
            BrowserAction::Look(path) => joined_effects(first, one_effect(Effect::Look(path))),
        }
    }

    /// Takes in a key press in the browser.
    pub fn on_key_browser(&mut self, key: KeyEvent, facts: &Facts) -> (r: Vec<Effect>)
        requires
            old(self).wf(),
            key.modifiers <= ALL_MODIFIERS,
        ensures
            final(self).wf(),
            browser_screen_keyed(*old(self), key, *facts, *final(self), deeds(r@)),
    {
        if let KeyCode::Char('?') = key.code {
            self.screen = Screen::Help { return_to: Box::new(Screen::FileBrowser) };
            return no_effects();
        }
        let ghost before = *self;
        let step = self.browser.on_key(key, facts.home);
        let ghost list = step.list;
        let ghost action = step.action;
        let ghost b = self.browser;
        let r = self.step_browser(step, facts.now, facts.temp_dir);
        assert(browser_keyed(before.browser@, key, opt_str(facts.home), b@, list, action));
        r
    }

    /// Takes in the entries of a directory.
    pub fn on_listed(&mut self, listing: Result<Vec<DirEntry>, String>) -> (r: Vec<Effect>)
        requires
            old(self).wf(),
        ensures
            final(self).wf(),
            browser_listed(*old(self), listing_of(listing), *final(self), deeds(r@)),
    {
        self.browser.on_listed(listing);
        if let Screen::FileBrowser = &self.screen {
            self.probe_highlighted()
        } else {
            no_effects()
        }
    }

    /// Takes in the entries of the directory that a browser opened with; when it
    /// could not be read the next one is tried.
    pub fn on_opened(
        &mut self,
        listing: Result<Vec<DirEntry>, String>,
        others: Vec<String>,
    ) -> (r: Vec<Effect>)
        requires
            old(self).wf(),
        ensures
            final(self).wf(),
            ({
                let b = old(self).browser@.listed(listing_of(listing));
                if b.all.len() == 0 && b.last_error is Some && others@.len() > 0 {
                    &&& *final(self) == (App { browser: final(self).browser, ..*old(self) })
                    &&& final(self).browser@ == (Browser { cwd: others@[0]@, ..b })
                    &&& deeds(r@) == seq![Deed::Open(others@[0]@, texts(others@).skip(1))]
                } else {
                    browser_listed(*old(self), listing_of(listing), *final(self), deeds(r@))
                }
            }),
    {
        let ghost names = texts(others@);
        let ghost before = *self;
        self.browser.on_listed(listing);
        if self.browser.needs_fallback() && others.len() > 0 {
            let mut others = others;
            let dir = others.remove(0);
            assert(texts(others@) =~= names.skip(1));
            self.browser.fall_back(copy_text(dir.as_str()));
            return one_effect(Effect::Open { dir, others });
        }
        if let Screen::FileBrowser = &self.screen {
            self.probe_highlighted()
        } else {
            no_effects()
        }
    }

    /// Takes in what a typed path is.
    pub fn on_found(
        &mut self,
        target: String,
        kind: PathKind,
        now: Duration,
        temp_dir: &str,
    ) -> (r: Vec<Effect>)
        requires
            old(self).wf(),
        ensures
            final(self).wf(),
            path_found(*old(self), target@, kind, now, temp_dir@, *final(self), deeds(r@)),
    {
        let step = self.browser.on_found(target, kind);
        let ghost list = step.list;
        let ghost action = step.action;
        let ghost b = self.browser;
        let ghost mid = *self;
        let r = self.step_browser(step, now, temp_dir);
        assert(mid == with_browser(*old(self), b));
        r
    }
}

} // verus!
