//! What a key press does.

use vstd::prelude::*;
use crate::app::batch::batch_wanted;
use crate::app::browse::{browser_opened, browser_screen_keyed, goes_to, help_over, idle, shows};
use crate::app::forms::{command_copied, form_rebuilt};
use crate::app::jobs::{
    active_run, cancellable, cancelling, current_spawned, queue_cancelled, queue_started,
    single_wanted, told,
};
use crate::app::{deeds, no_effects, one_effect, App, CopyFor, Deed, Effect, Facts, SaveFor, Screen};
use crate::config::presets::{builtins, preset_from_fields, saved, Preset, Recipe};
use crate::ffmpeg::probe::{format_size, size_text};
use crate::key::{buffer, fresh_buffer, input_text, KeyCode, KeyEvent, ALL_MODIFIERS};
use crate::number::{dec, nearest, nearest_of, show};
use crate::ops::fields::{rows, steady, Control};
use crate::ops::{menu, operations, position, OperationMeta};
use crate::queue::pump::lemma_found;
use crate::queue::{unfinished, waits, Queue, QueueState};
use crate::text::{copy_opt, copy_text, join2, join3, opt_text, same, trimmed};
use crate::time::Duration;
use crate::ui::screens::missing_ffmpeg::{missing_keyed, submits};
use crate::ui::screens::parameter_form::{
    edit_means, form_edited, form_keyed, form_means, FormAction, ParamForm,
};
use crate::ui::screens::popups::{
    all_presets, on_key_preset_popup, on_key_prompt, popup_moved, prompt_keyed, recipes, NamePrompt,
    PresetPopup, PresetPopupAction, PromptAction,
};
use crate::ui::screens::queue::{queue_means, queue_moved, QueueAction};
use crate::ui::screens::running::{run_keyed, run_means, RunAction, RunPhase, RunState};

verus! {

// ---------------------------------------------------------------------------
// The menu
// ---------------------------------------------------------------------------

/// The operation before or after one, round the menu.
pub open spec fn neighbour(selected: int, forward: bool) -> int {
    let n = menu().len() as int;
    if forward {
        (selected + 1) % n
    } else {
        (selected + n - 1) % n
    }
}

/// Whether the highlight of the menu was moved.
pub open spec fn selection_moved(before: App, forward: bool, after: App, d: Seq<Deed>) -> bool {
    &&& after == (App {
        selected_operation: neighbour(before.selected_operation as int, forward) as usize,
        status_message: None,
        ..before
    })
    &&& d == Seq::<Deed>::empty()
}

/// What a key press on the menu does.
pub open spec fn picker_keyed(
    before: App,
    key: KeyEvent,
    facts: Facts,
    after: App,
    d: Seq<Deed>,
) -> bool {
    match key.code {
        KeyCode::Char('p') => {
            &&& after == (App { preset_popup: Some(PresetPopup { selected: 0 }), ..before })
            &&& d == Seq::<Deed>::empty()
        },
        KeyCode::Up => selection_moved(before, false, after, d),
        KeyCode::Char('k') => selection_moved(before, false, after, d),
        KeyCode::Down => selection_moved(before, true, after, d),
        KeyCode::Char('j') => selection_moved(before, true, after, d),
        KeyCode::Enter => browser_opened(before, after, facts, d),
        KeyCode::Char('?') => shows(before, after, help_over(Screen::OperationPicker), d),
        KeyCode::Esc => after == (App { should_quit: true, ..before }) && d == Seq::<
            Deed,
        >::empty(),
        _ => idle(before, after, d),
    }
}

impl App {
    /// Moves the highlight of the menu, round its ends.
    fn move_selection(&mut self, forward: bool)
        requires
            old(self).wf(),
        ensures
            final(self).wf(),
            selection_moved(*old(self), forward, *final(self), Seq::empty()),
    {
        let all = operations();
        let n: usize = all.len();
        assert(all@.map_values(|m: OperationMeta| m@).len() == n);
        let at: usize = self.selected_operation;
        let next: usize = if forward {
            if at + 1 < n {
                at + 1
            } else {
                0
            }
        } else if at > 0 {
            at - 1
        } else {
            n - 1
        };
        proof {
            let m = n as int;
            let i = at as int;
            if i + 1 < m {
                vstd::arithmetic::div_mod::lemma_small_mod((i + 1) as nat, m as nat);
            } else {
                assert(i + 1 == m);
                vstd::arithmetic::div_mod::lemma_mod_self_0(m);
            }
            if i > 0 {
                vstd::arithmetic::div_mod::lemma_small_mod((i - 1) as nat, m as nat);
                vstd::arithmetic::div_mod::lemma_mod_add_multiples_vanish(i - 1, m);
                assert(i + m - 1 == m + (i - 1));
            } else {
                vstd::arithmetic::div_mod::lemma_small_mod((m - 1) as nat, m as nat);
            }
        }
        self.selected_operation = next;
        self.status_message = None;
    }

    /// Takes in a key press on the menu.
    pub fn on_key_picker(&mut self, key: KeyEvent, facts: &Facts) -> (r: Vec<Effect>)
        requires
            old(self).wf(),
        ensures
            final(self).wf(),
            picker_keyed(*old(self), key, *facts, *final(self), deeds(r@)),
    {
        match key.code {
            KeyCode::Char('p') => {
                self.preset_popup = Some(PresetPopup { selected: 0 });
                no_effects()
            },
            KeyCode::Up | KeyCode::Char('k') => {
                self.move_selection(false);
                no_effects()
            },
            KeyCode::Down | KeyCode::Char('j') => {
                self.move_selection(true);
                no_effects()
            },
            KeyCode::Enter => self.open_browser(facts),
            KeyCode::Char('?') => {
                self.screen = Screen::Help { return_to: Box::new(Screen::OperationPicker) };
                no_effects()
            },
            KeyCode::Esc => {
                self.should_quit = true;
                no_effects()
            },
            _ => no_effects(),
        }
    }
}

// ---------------------------------------------------------------------------
// The form
// ---------------------------------------------------------------------------

/// What asking to run a form does: several inputs make a batch, except where
/// they are joined into one.
pub open spec fn run_wanted(
    before: App,
    after: App,
    date: Seq<char>,
    temp: Seq<char>,
    d: Seq<Deed>,
) -> bool {
    match before.form {
        Some(f) => if f.op_id@ != "concat"@ && before.form_inputs@.len() > 1 {
            batch_wanted(before, after, date, temp, d)
        } else {
            single_wanted(before, after, d)
        },
        None => idle(before, after, d),
    }
}

/// What a key press means to a form.
pub open spec fn form_action(f: ParamForm, code: KeyCode) -> FormAction {
    if f.editing {
        edit_means(f, code)
    } else {
        form_means(f, code)
    }
}

/// What a key press makes of a form.
pub open spec fn form_pressed(f: ParamForm, key: KeyEvent, g: ParamForm) -> bool {
    if f.editing {
        form_edited(f, key, g)
    } else {
        form_keyed(f, key, g)
    }
}

/// The application with another form.
pub open spec fn with_form(a: App, f: ParamForm) -> App {
    App { form: Some(f), ..a }
}

/// What a form's action does.
pub open spec fn form_acted(
    before: App,
    action: FormAction,
    facts: Facts,
    after: App,
    d: Seq<Deed>,
) -> bool {
    match action {
        FormAction::Nothing => idle(before, after, d),
        FormAction::Changed => form_rebuilt(before, after, facts.now, facts.temp_dir@) && d
            == Seq::<Deed>::empty(),
        FormAction::Back => goes_to(before, after, Screen::FileBrowser, d),
        FormAction::Run => run_wanted(before, after, facts.date@, facts.temp_dir@, d),
    }
}

/// Whether the prompt for a preset's name was opened.
pub open spec fn prompt_opened(before: App, after: App, d: Seq<Deed>) -> bool {
    &&& after == (App { save_prompt: after.save_prompt, ..before })
    &&& after.save_prompt matches Some(p) && p.title@ == "Save preset as"@ && buffer(p.input)
        == fresh_buffer(Seq::empty())
    &&& d == Seq::<Deed>::empty()
}

/// Whether a text of the form is being edited.
pub open spec fn form_editing(a: App) -> bool {
    a.form matches Some(f) && f.editing
}

/// What a key press on the form does.
pub open spec fn form_screen_keyed(
    before: App,
    key: KeyEvent,
    facts: Facts,
    after: App,
    d: Seq<Deed>,
) -> bool {
    if key.code == KeyCode::Char('?') && !form_editing(before) {
        shows(before, after, help_over(Screen::ParameterForm), d)
    } else if key.code == KeyCode::Char('c') && !form_editing(before) {
        command_copied(before, after, d)
    } else if key.code == KeyCode::Char('s') && !form_editing(before) {
        prompt_opened(before, after, d)
    } else {
        match before.form {
            Some(f) => exists|g: ParamForm| #[trigger]
                form_pressed(f, key, g) && form_acted(
                    with_form(before, g),
                    form_action(f, key.code),
                    facts,
                    after,
                    d,
                ),
            None => goes_to(before, after, Screen::FileBrowser, d),
        }
    }
}

impl App {
    /// Asks to run the form.
    pub fn start_job_flow(&mut self, date: &str, temp_dir: &str) -> (r: Vec<Effect>)
        ensures
            run_wanted(*old(self), *final(self), date@, temp_dir@, deeds(r@)),
            old(self).wf() ==> final(self).wf(),
    {
        let joins = match &self.form {
            Some(form) => same(form.op_id.as_str(), "concat"),
            None => {
                return no_effects();
            },
        };
        if !joins && self.form_inputs.len() > 1 {
            self.start_batch_flow(date, temp_dir)
        } else {
            self.start_single_flow()
        }
    }

    /// Takes in a key press on the form.
    pub fn on_key_form(&mut self, key: KeyEvent, facts: &Facts) -> (r: Vec<Effect>)
        requires
            old(self).wf(),
            key.modifiers <= ALL_MODIFIERS,
        ensures
            final(self).wf(),
            form_screen_keyed(*old(self), key, *facts, *final(self), deeds(r@)),
    {
        let editing = match &self.form {
            Some(form) => form.editing,
            None => false,
        };
        if !editing {
            match key.code {
                KeyCode::Char('?') => {
                    self.screen = Screen::Help { return_to: Box::new(Screen::ParameterForm) };
                    return no_effects();
                },
                KeyCode::Char('c') => {
                    return self.copy_command();
                },
                KeyCode::Char('s') => {
                    self.save_prompt = Some(NamePrompt::new("Save preset as"));
                    return no_effects();
                },
                _ => {},
            }
        }
        let ghost before = *self;
        let action = match &mut self.form {
            Some(form) => form.on_key(key),
            None => FormAction::Back,
        };
        let ghost mid = *self;
        proof {
            if before.form is Some {
                assert(form_pressed(before.form->0, key, mid.form->0));
                assert(mid == with_form(before, mid.form->0));
            }
        }
        match action {
            FormAction::Nothing => no_effects(),
            FormAction::Changed => {
                self.rebuild_form(facts.now, facts.temp_dir);
                no_effects()
            },
            FormAction::Back => {
                self.screen = Screen::FileBrowser;
                self.status_message = None;
                no_effects()
            },
            FormAction::Run => self.start_job_flow(facts.date, facts.temp_dir),
        }
    }
}

// ---------------------------------------------------------------------------
// The queue
// ---------------------------------------------------------------------------

/// What is said of a job that was removed.
pub const REMOVED: &'static str = "Pending job removed.";

/// What is said when a job cannot be removed.
pub const NOT_REMOVED: &'static str = "Only pending jobs can be removed (cancel running ones first).";

/// Whether the selected job was removed, where it waits.
pub open spec fn selected_removed(before: App, after: App, d: Seq<Deed>) -> bool {
    let v = before.queue.jobs@;
    let at = before.queue.selected as int;
    &&& d == Seq::<Deed>::empty()
    &&& if at < v.len() && waits(v[at]) {
        &&& after == (App {
            queue: QueueState { jobs: after.queue.jobs, ..before.queue },
            status_message: after.status_message,
            ..before
        })
        &&& after.queue.jobs@ == v.remove(at)
        &&& opt_text(after.status_message) == Some(REMOVED@)
    } else {
        &&& after == (App {
            queue: QueueState { jobs: after.queue.jobs, ..before.queue },
            status_message: after.status_message,
            ..before
        })
        &&& after.queue.jobs@ == v
        &&& opt_text(after.status_message) == Some(NOT_REMOVED@)
    }
}

/// Whether the jobs that are over were dropped.
pub open spec fn finished_cleared(before: App, after: App, d: Seq<Deed>) -> bool {
    &&& after == (App {
        queue: QueueState { jobs: after.queue.jobs, selected: 0, ..before.queue },
        ..before
    })
    &&& after.queue.jobs@ == unfinished(before.queue.jobs@)
    &&& d == Seq::<Deed>::empty()
}

/// The screen below an overlay.
pub open spec fn below(screen: Screen) -> Screen {
    match screen {
        Screen::Queue { return_to } => *return_to,
        Screen::Help { return_to } => *return_to,
        _ => screen,
    }
}

/// What a key press on the queue does.
pub open spec fn queue_screen_keyed(before: App, key: KeyEvent, after: App, d: Seq<Deed>) -> bool {
    if key.code == KeyCode::Char('?') {
        shows(before, after, help_over(before.screen), d)
    } else {
        let mid = App {
            queue: QueueState {
                selected: queue_moved(
                    before.queue.selected as int,
                    key.code,
                    before.queue.jobs@.len() as int,
                ) as usize,
                ..before.queue
            },
            ..before
        };
        match queue_means(key.code) {
            QueueAction::Nothing => idle(mid, after, d),
            QueueAction::Back => shows(mid, after, below(mid.screen), d),
            QueueAction::StartArmed => if mid.queue.overwrite_conflicts@.len() > 0
                || !mid.queue.running {
                queue_started(mid, after, d)
            } else {
                idle(mid, after, d)
            },
            QueueAction::RemoveSelected => selected_removed(mid, after, d),
            QueueAction::ClearFinished => finished_cleared(mid, after, d),
        }
    }
}

impl App {
    /// Removes the selected job of the queue.
    fn remove_selected(&mut self)
        requires
            old(self).wf(),
        ensures
            final(self).wf(),
            selected_removed(*old(self), *final(self), Seq::empty()),
    {
        let at: usize = self.queue.selected;
        let mut removed = false;
        if at < self.queue.jobs.len() {
            let id: u64 = self.queue.jobs[at].id;
            proof {
                lemma_found(self.queue@, at as int);
            }
            removed = self.queue.remove_pending(id);
        }
        self.status_message = Some(
            if removed {
                copy_text(REMOVED)
            } else {
                copy_text(NOT_REMOVED)
            },
        );
    }

    /// Goes back to the screen below.
    fn close_overlay(&mut self)
        ensures
            *final(self) == (App { screen: below(old(self).screen), ..*old(self) }),
    {
        let next = match &self.screen {
            Screen::Queue { return_to } => return_to.copy(),
            Screen::Help { return_to } => return_to.copy(),
            other => other.copy(),
        };
        self.screen = next;
    }

    /// Takes in a key press on the queue.
    pub fn on_key_queue(&mut self, key: KeyEvent) -> (r: Vec<Effect>)
        requires
            old(self).wf(),
        ensures
            final(self).wf(),
            queue_screen_keyed(*old(self), key, *final(self), deeds(r@)),
    {
        if let KeyCode::Char('?') = key.code {
            let here = self.screen.copy();
            self.screen = Screen::Help { return_to: Box::new(here) };
            return no_effects();
        }
        let action = crate::ui::screens::queue::on_key(&mut self.queue, key);
        assert(self.queue@ =~= (Queue { selected: self.queue@.selected, ..old(self).queue@ }));
        match action {
            QueueAction::Nothing => no_effects(),
            QueueAction::Back => {
                self.close_overlay();
                no_effects()
            },
            QueueAction::StartArmed => {
                if self.queue.overwrite_conflicts.len() > 0 || !self.queue.running {
                    self.start_queue_execution()
                } else {
                    no_effects()
                }
            },
            QueueAction::RemoveSelected => {
                self.remove_selected();
                no_effects()
            },
            QueueAction::ClearFinished => {
                self.queue.clear_finished();
                no_effects()
            },
        }
    }
}

// ---------------------------------------------------------------------------
// Presets
// ---------------------------------------------------------------------------

/// The presets that can be chosen, the built-in ones first.
pub open spec fn choosable(a: App) -> Seq<Recipe> {
    builtins() + recipes(a.settings.presets@)
}

/// What choosing a preset does: the browser opens for its operation, and the
/// form that follows starts with it.
pub open spec fn preset_chosen(
    before: App,
    preset: Recipe,
    facts: Facts,
    after: App,
    d: Seq<Deed>,
) -> bool {
    let at = position(menu(), preset.operation);
    if at < menu().len() {
        &&& after.pending_preset matches Some(p) && p@ == preset
        &&& browser_opened(
            App {
                selected_operation: at as usize,
                pending_preset: after.pending_preset,
                ..before
            },
            after,
            facts,
            d,
        )
    } else {
        &&& told(
            before,
            after,
            "Preset targets unknown operation '"@ + preset.operation + "'."@,
        )
        &&& d == Seq::<Deed>::empty()
    }
}

/// What a key press on the list of presets does.
pub open spec fn popup_screen_keyed(
    before: App,
    popup: PresetPopup,
    key: KeyEvent,
    facts: Facts,
    after: App,
    d: Seq<Deed>,
) -> bool {
    let all = choosable(before);
    let closed = App { preset_popup: None, ..before };
    match key.code {
        KeyCode::Esc => idle(closed, after, d),
        KeyCode::Enter => if popup.selected < all.len() {
            preset_chosen(closed, all[popup.selected as int], facts, after, d)
        } else {
            idle(closed, after, d)
        },
        _ => {
            &&& after == (App {
                preset_popup: Some(
                    PresetPopup {
                        selected: popup_moved(
                            popup.selected as int,
                            key.code,
                            all.len() as int,
                        ) as usize,
                    },
                ),
                ..before
            })
            &&& d == Seq::<Deed>::empty()
        },
    }
}

/// Whether a preset was saved from the form under a name.
pub open spec fn preset_saved(
    before: App,
    f: ParamForm,
    name: Seq<char>,
    after: App,
    d: Seq<Deed>,
) -> bool {
    let v = before.settings.presets@;
    let w = after.settings.presets@;
    &&& after == (App {
        settings: crate::config::settings::Settings {
            presets: after.settings.presets,
            ..before.settings
        },
        ..before
    })
    &&& w.len() == v.len() + 1
    &&& w.drop_last() == v
    &&& w.last()@ == (Recipe {
        name,
        operation: f.op_id@,
        description: "Saved from the form"@,
        params: saved(rows(f.fields@)),
    })
    &&& d == seq![Deed::SavePreset(name)]
}

/// What a key press on the prompt for a preset's name does.
pub open spec fn prompt_screen_keyed(
    before: App,
    prompt: NamePrompt,
    key: KeyEvent,
    after: App,
    d: Seq<Deed>,
) -> bool {
    let closed = App { save_prompt: None, ..before };
    let name = trimmed(input_text(prompt.input));
    match key.code {
        KeyCode::Esc => idle(closed, after, d),
        KeyCode::Enter => if name.len() == 0 {
            told(closed, after, "Preset needs a name."@) && d == Seq::<Deed>::empty()
        } else {
            match before.form {
                Some(f) => preset_saved(closed, f, name, after, d),
                None => idle(closed, after, d),
            }
        },
        _ => {
            &&& after.save_prompt is Some
            &&& prompt_keyed(prompt, key, after.save_prompt->0)
            &&& after == (App { save_prompt: after.save_prompt, ..before })
            &&& d == Seq::<Deed>::empty()
        },
    }
}

/// Finds an operation of the menu by its id.
fn find_position(id: &str) -> (r: usize)
    ensures
        r == position(menu(), id@),
        r <= menu().len(),
{
    let all = operations();
    let ghost v = all@.map_values(|m: OperationMeta| m@);
    let n: usize = all.len();
    assert(v.len() == n);
    let mut i: usize = 0;
    assert(v.skip(0) =~= v);
    while i < n && !same(all[i].id, id)
        invariant
            v == all@.map_values(|m: OperationMeta| m@),
            v == menu(),
            n == v.len(),
            n == all@.len(),
            i <= n,
            position(v, id@) == i + position(v.skip(i as int), id@),
        decreases n - i,
    {
        assert(v.skip(i as int)[0] == all@[i as int]@);
        assert(v.skip(i as int).skip(1) =~= v.skip(i + 1));
        i = i + 1;
    }
    proof {
        if i < n {
            assert(v.skip(i as int)[0] == all@[i as int]@);
        }
    }
    i
}

impl App {
    /// Takes in a preset that was chosen.
    fn choose_preset(&mut self, preset: Preset, facts: &Facts) -> (r: Vec<Effect>)
        requires
            old(self).wf(),
        ensures
            final(self).wf(),
            preset_chosen(*old(self), preset@, *facts, *final(self), deeds(r@)),
    {
        let at: usize = find_position(preset.operation.as_str());
        let n: usize = operations().len();
        proof {
            assert(menu().len() == n);
        }
        if at < n {
            self.selected_operation = at;
            self.pending_preset = Some(preset);
            self.open_browser(facts)
        } else {
            self.status_message = Some(
                join3(
                    "Preset targets unknown operation '",
                    preset.operation.as_str(),
                    "'.",
                ),
            );
            no_effects()
        }
    }

    /// Takes in a key press on the list of presets.
    pub fn on_key_preset_popup(&mut self, key: KeyEvent, facts: &Facts) -> (r: Vec<Effect>)
        requires
            old(self).wf(),
            old(self).preset_popup is Some,
        ensures
            final(self).wf(),
            popup_screen_keyed(
                *old(self),
                old(self).preset_popup->0,
                key,
                *facts,
                *final(self),
                deeds(r@),
            ),
    {
        let presets = all_presets(&self.settings);
        let ghost all = choosable(*self);
        assert(recipes(presets@).len() == presets@.len());
        let action = match &mut self.preset_popup {
            Some(popup) => on_key_preset_popup(popup, key, presets.as_slice()),
            None => {
                return no_effects();
            },
        };
        match action {
            PresetPopupAction::Nothing => no_effects(),
            PresetPopupAction::Close => {
                self.preset_popup = None;
                no_effects()
            },
            PresetPopupAction::Apply(preset) => {
                proof {
                    let at = old(self).preset_popup->0.selected as int;
                    assert(recipes(presets@)[at] == presets@[at]@);
                }
                self.preset_popup = None;
                self.choose_preset(preset, facts)
            },
        }
    }

    /// Saves the values of the form as a preset.
    fn save_preset(&mut self, name: String) -> (r: Vec<Effect>)
        requires
            old(self).wf(),
        ensures
            final(self).wf(),
            match old(self).form {
                Some(f) => preset_saved(*old(self), f, name@, *final(self), deeds(r@)),
                None => idle(*old(self), *final(self), deeds(r@)),
            },
    {
        let preset = match &self.form {
            Some(form) => {
                proof {
                    assert forall|i: int| 0 <= i < form.fields@.len() implies (
                    #[trigger] form.fields@[i]@.control matches Control::Toggle {
                        selected,
                        ..
                    } ==> selected == 0 || selected == 1) by {
                        assert(steady(rows(form.fields@)[i].control));
                    }
                }
                preset_from_fields(
                    copy_text(name.as_str()),
                    copy_text(form.op_id.as_str()),
                    form.fields.as_slice(),
                )
            },
            None => {
                return no_effects();
            },
        };
        let ghost v = self.settings.presets@;
        self.settings.presets.push(preset);
        assert(self.settings.presets@.drop_last() =~= v);
        one_effect(Effect::Save(SaveFor::Preset(name)))
    }

    /// Takes in a key press on the prompt for a preset's name.
    pub fn on_key_save_prompt(&mut self, key: KeyEvent) -> (r: Vec<Effect>)
        requires
            old(self).wf(),
            old(self).save_prompt is Some,
            key.modifiers <= ALL_MODIFIERS,
        ensures
            final(self).wf(),
            prompt_screen_keyed(
                *old(self),
                old(self).save_prompt->0,
                key,
                *final(self),
                deeds(r@),
            ),
    {
        let action = match &mut self.save_prompt {
            Some(prompt) => on_key_prompt(prompt, key),
            None => {
                return no_effects();
            },
        };
        match action {
            PromptAction::Nothing => no_effects(),
            PromptAction::Close => {
                self.save_prompt = None;
                no_effects()
            },
            PromptAction::Submit(name) => {
                self.save_prompt = None;
                if name.as_str().is_empty() {
                    self.status_message = Some(copy_text("Preset needs a name."));
                    return no_effects();
                }
                self.save_preset(name)
            },
        }
    }

    /// Takes in what came of saving the settings.
    pub fn on_saved(&mut self, what: SaveFor, result: Result<(), String>)
        ensures
            match (what, result) {
                (SaveFor::CustomPath, Ok(())) => *final(self) == *old(self),
                (SaveFor::CustomPath, Err(e)) => told(
                    *old(self),
                    *final(self),
                    "Custom path works but could not be saved: "@ + e@,
                ),
                (SaveFor::Preset(name), Ok(())) => told(
                    *old(self),
                    *final(self),
                    "Preset '"@ + name@ + "' saved."@,
                ),
                (SaveFor::Preset(_), Err(e)) => told(
                    *old(self),
                    *final(self),
                    "Preset applied but not saved: "@ + e@,
                ),
            },
    {
        match (what, result) {
            (SaveFor::CustomPath, Ok(())) => {},
            (SaveFor::CustomPath, Err(e)) => {
                self.status_message = Some(
                    join2("Custom path works but could not be saved: ", e.as_str()),
                );
            },
            (SaveFor::Preset(name), Ok(())) => {
                self.status_message = Some(join3("Preset '", name.as_str(), "' saved."));
            },
            (SaveFor::Preset(_), Err(e)) => {
                self.status_message = Some(join2("Preset applied but not saved: ", e.as_str()));
            },
        }
    }
}

// ---------------------------------------------------------------------------
// The running screen
// ---------------------------------------------------------------------------

/// A time in seconds with one digit behind the point.
pub open spec fn tenths(nanos: nat) -> Seq<char> {
    let t = nearest(nanos, 100_000_000);
    dec(t / 10) + "."@ + dec(t % 10)
}

/// What is said of a job that is over, once its screen is left.
pub open spec fn done_text(run: Option<RunState>, size: Option<u64>) -> Option<Seq<char>> {
    match run {
        Some(r) => match r.result {
            Some(result) => Some(
                "Done in "@ + tenths(result.wall_time.nanos as nat) + "s → "@ + r.output@ + (
                match size {
                    Some(n) => " ("@ + size_text(n as nat) + ")"@,
                    None => Seq::empty(),
                }),
            ),
            None => None,
        },
        None => None,
    }
}

/// Whether the menu is shown again, with what came of the job.
pub open spec fn returned(before: App, size: Option<u64>, after: App, d: Seq<Deed>) -> bool {
    &&& after == (App {
        screen: Screen::OperationPicker,
        status_message: after.status_message,
        ..before
    })
    &&& opt_text(after.status_message) == done_text(before.run, size)
    &&& d == Seq::<Deed>::empty()
}

/// Whether the job of the running screen is over, and went well.
pub open spec fn went_well(a: App) -> bool {
    a.run matches Some(r) && r.phase == RunPhase::Done && r.has_succeeded()
}

/// Whether the report of the job is copied, and nothing else done.
pub open spec fn report_copied(before: App, after: App, d: Seq<Deed>) -> bool {
    &&& after == before
    &&& d == (match before.run {
        Some(r) => seq![Deed::Copy(r.report(), CopyFor::Report)],
        None => Seq::empty(),
    })
}

/// Whether the partial output is deleted.
pub open spec fn partial_deleted(before: App, after: App, d: Seq<Deed>) -> bool {
    match before.run {
        Some(r) => {
            &&& after == (App {
                run: Some(RunState { phase: RunPhase::Done, ..r }),
                ..before
            })
            &&& d == seq![Deed::Delete(r.output@)]
        },
        None => idle(before, after, d),
    }
}

/// What an action of the running screen does.
pub open spec fn run_acted(
    before: App,
    action: RunAction,
    now: Duration,
    after: App,
    d: Seq<Deed>,
) -> bool {
    match action {
        RunAction::Nothing => idle(before, after, d),
        RunAction::Back => goes_to(before, after, Screen::ParameterForm, d),
        RunAction::Spawn => current_spawned(before, after, now, d),
        RunAction::DeletePartial => partial_deleted(before, after, d),
        RunAction::CopyReport => report_copied(before, after, d),
    }
}

/// What a key press on the running screen does. Once a job went well every key
/// but `c` and `l` leaves the screen.
pub open spec fn running_screen_keyed(
    before: App,
    key: KeyEvent,
    facts: Facts,
    after: App,
    d: Seq<Deed>,
) -> bool {
    if key.code == KeyCode::Char('?') {
        shows(before, after, help_over(Screen::Running), d)
    } else if went_well(before) {
        match key.code {
            KeyCode::Char('c') => report_copied(before, after, d),
            KeyCode::Char('l') => {
                let r = before.run->0;
                &&& after == (App {
                    run: Some(
                        RunState { log_expanded: !r.log_expanded, log_scroll: 0, ..r },
                    ),
                    ..before
                })
                &&& d == Seq::<Deed>::empty()
            },
            _ => returned(before, facts.output_size, after, d),
        }
    } else {
        match before.run {
            Some(r) => run_acted(
                App { run: Some(run_keyed(r, key.code)), ..before },
                run_means(r.phase, key.code),
                facts.now,
                after,
                d,
            ),
            None => goes_to(before, after, Screen::ParameterForm, d),
        }
    }
}

/// Writes a time in seconds with one digit behind the point.
fn show_tenths(d: Duration) -> (r: String)
    ensures
        r@ == tenths(d.nanos as nat),
{
    let t: u128 = nearest_of(d.nanos, 100_000_000);
    join3(show(t / 10).as_str(), ".", show(t % 10).as_str())
}

impl App {
    /// Says what came of the job.
    pub fn success_summary(&self, size: Option<u64>) -> (r: Option<String>)
        ensures
            opt_text(r) == done_text(self.run, size),
    {
        match &self.run {
            Some(run) => match &run.result {
                Some(result) => {
                    let mut text = join3("Done in ", show_tenths(result.wall_time).as_str(), "s → ");
                    text.append(run.output.as_str());
                    if let Some(n) = size {
                        text.append(" (");
                        text.append(format_size(n).as_str());
                        text.append(")");
                    }
                    assert(text@ =~= done_text(self.run, size)->0);
                    Some(text)
                },
                None => None,
            },
            None => None,
        }
    }

    /// Copies the report of the job.
    pub fn copy_report(&self) -> (r: Vec<Effect>)
        ensures
            report_copied(*self, *self, deeds(r@)),
    {
        match &self.run {
            Some(run) => one_effect(
                Effect::Copy { text: run.error_report(), what: CopyFor::Report },
            ),
            None => no_effects(),
        }
    }

    /// Deletes the partial output of the job.
    pub fn delete_partial(&mut self) -> (r: Vec<Effect>)
        ensures
            partial_deleted(*old(self), *final(self), deeds(r@)),
            old(self).wf() ==> final(self).wf(),
    {
        if let Some(run) = &mut self.run {
            run.phase = RunPhase::Done;
            let e = Effect::Delete(copy_text(run.output.as_str()));
            one_effect(e)
        } else {
            no_effects()
        }
    }

    /// Takes in what came of deleting the partial output.
    pub fn on_deleted(&mut self, result: Result<(), String>)
        ensures
            told(
                *old(self),
                *final(self),
                match result {
                    Ok(()) => "Partial file deleted."@,
                    Err(e) => "Could not delete partial file: "@ + e@,
                },
            ),
    {
        self.status_message = Some(
            match result {
                Ok(()) => copy_text("Partial file deleted."),
                Err(e) => join2("Could not delete partial file: ", e.as_str()),
            },
        );
    }

    /// Takes in a key press on the running screen.
    pub fn on_key_running(&mut self, key: KeyEvent, facts: &Facts) -> (r: Vec<Effect>)
        requires
            old(self).wf(),
            old(self).queue.next_id < u64::MAX,
        ensures
            final(self).wf(),
            running_screen_keyed(*old(self), key, *facts, *final(self), deeds(r@)),
    {
        if let KeyCode::Char('?') = key.code {
            self.screen = Screen::Help { return_to: Box::new(Screen::Running) };
            return no_effects();
        }
        let well = match &self.run {
            Some(run) => matches!(run.phase, RunPhase::Done) && run.succeeded(),
            None => false,
        };
        if well {
            match key.code {
                KeyCode::Char('c') => {
                    return self.copy_report();
                },
                KeyCode::Char('l') => {
                    if let Some(run) = &mut self.run {
                        run.log_expanded = !run.log_expanded;
                        run.log_scroll = 0;
                    }
                    return no_effects();
                },
                _ => {
                    let text = self.success_summary(facts.output_size);
                    self.status_message = text;
                    self.screen = Screen::OperationPicker;
                    return no_effects();
                },
            }
        }
        let action = match &mut self.run {
            Some(run) => crate::ui::screens::running::on_key(run, key),
            None => RunAction::Back,
        };
        match action {
            RunAction::Nothing => no_effects(),
            RunAction::Back => {
                self.screen = Screen::ParameterForm;
                self.status_message = None;
                no_effects()
            },
            RunAction::Spawn => self.spawn_current_job(facts.now),
            RunAction::DeletePartial => self.delete_partial(),
            RunAction::CopyReport => self.copy_report(),
        }
    }
}

// ---------------------------------------------------------------------------
// Every key
// ---------------------------------------------------------------------------

/// Whether the user is typing a text, so that letters are no commands.
pub open spec fn typing(a: App) -> bool {
    a.save_prompt is Some || match a.screen {
        Screen::MissingFfmpeg => true,
        Screen::FileBrowser => a.browser.path_mode,
        Screen::ParameterForm => form_editing(a),
        _ => false,
    }
}

/// What is said to one who quits while work goes on.
pub const WORKING: &'static str = "Work is running — Ctrl+C cancels it, then q quits.";

/// Whether the program is to end.
pub open spec fn quits(before: App, after: App, d: Seq<Deed>) -> bool {
    after == (App { should_quit: true, ..before }) && d == Seq::<Deed>::empty()
}

/// What Ctrl+C does: it stops the work that goes on, a second time for good, and
/// ends the program when there is none.
pub open spec fn interrupted(before: App, after: App, d: Seq<Deed>) -> bool {
    if cancellable(before) {
        let r = before.run->0;
        &&& after == (App { run: Some(RunState { phase: RunPhase::Cancelling, ..r }), ..before })
        &&& d == seq![Deed::Cancel(r.job_id)]
    } else if cancelling(before) {
        &&& after == before
        &&& d == (match before.run->0.pid {
            Some(pid) => seq![Deed::Kill(pid)],
            None => Seq::empty(),
        })
    } else if before.queue.running && before.queue.active@ != Set::<u64>::empty() {
        queue_cancelled(before, after, d)
    } else {
        quits(before, after, d)
    }
}

/// What a key press on the screen for a missing FFmpeg does.
pub open spec fn missing_screen_keyed(before: App, key: KeyEvent, after: App, d: Seq<Deed>) -> bool {
    &&& missing_keyed(before.missing, key, after.missing)
    &&& after == (App { missing: after.missing, ..before })
    &&& d == (if submits(before.missing, key) {
        seq![
            Deed::CheckPath(
                trimmed(input_text(before.missing.input)),
                opt_text(before.settings.general.ffprobe_path),
            ),
        ]
    } else {
        Seq::empty()
    })
}

/// What a key press does on the screen that is shown.
pub open spec fn screen_keyed(
    before: App,
    key: KeyEvent,
    facts: Facts,
    after: App,
    d: Seq<Deed>,
) -> bool {
    match before.screen {
        Screen::Startup => idle(before, after, d),
        Screen::MissingFfmpeg => missing_screen_keyed(before, key, after, d),
        Screen::OperationPicker => picker_keyed(before, key, facts, after, d),
        Screen::FileBrowser => browser_screen_keyed(before, key, facts, after, d),
        Screen::ParameterForm => form_screen_keyed(before, key, facts, after, d),
        Screen::Running => running_screen_keyed(before, key, facts, after, d),
        Screen::Help { .. } => shows(before, after, below(before.screen), d),
        Screen::Queue { .. } => queue_screen_keyed(before, key, after, d),
    }
}

/// Whether the queue can be opened from a screen.
pub open spec fn leads_to_queue(screen: Screen) -> bool {
    screen is OperationPicker || screen is FileBrowser || screen is ParameterForm
}

/// Whether a key press is Ctrl+C.
pub open spec fn is_interrupt(key: KeyEvent) -> bool {
    key.with_control() && key.code == KeyCode::Char('c')
}

/// What a key press does.
pub open spec fn app_keyed(
    before: App,
    key: KeyEvent,
    facts: Facts,
    after: App,
    d: Seq<Deed>,
) -> bool {
    if is_interrupt(key) {
        interrupted(before, after, d)
    } else if before.preset_popup is Some {
        popup_screen_keyed(before, before.preset_popup->0, key, facts, after, d)
    } else if before.save_prompt is Some {
        prompt_screen_keyed(before, before.save_prompt->0, key, after, d)
    } else if key.code == KeyCode::Char('q') && !typing(before) {
        if active_run(before) || before.queue.running {
            told(before, after, WORKING@) && d == Seq::<Deed>::empty()
        } else {
            quits(before, after, d)
        }
    } else if key.code == KeyCode::Char('Q') && !typing(before) && leads_to_queue(before.screen) {
        shows(before, after, Screen::Queue { return_to: Box::new(before.screen) }, d)
    } else {
        screen_keyed(before, key, facts, after, d)
    }
}

impl App {
    /// Tests whether the user is typing a text.
    pub fn has_text_focus(&self) -> (r: bool)
        ensures
            r == typing(*self),
    {
        if self.save_prompt.is_some() {
            return true;
        }
        match &self.screen {
            Screen::MissingFfmpeg => true,
            Screen::FileBrowser => self.browser.path_mode,
            Screen::ParameterForm => match &self.form {
                Some(form) => form.editing,
                None => false,
            },
            _ => false,
        }
    }

    /// Asks the job to stop.
    pub fn cancel_job(&mut self) -> (r: Vec<Effect>)
        ensures
            match old(self).run {
                Some(run) => *final(self) == (App {
                    run: Some(RunState { phase: RunPhase::Cancelling, ..run }),
                    ..*old(self)
                }) && deeds(r@) == seq![Deed::Cancel(run.job_id)],
                None => idle(*old(self), *final(self), deeds(r@)),
            },
            old(self).wf() ==> final(self).wf(),
    {
        if let Some(run) = &mut self.run {
            run.phase = RunPhase::Cancelling;
            let id: u64 = run.job_id;
            one_effect(Effect::Cancel(id))
        } else {
            no_effects()
        }
    }

    /// Kills the job's process.
    pub fn force_kill_job(&self) -> (r: Vec<Effect>)
        ensures
            deeds(r@) == (match self.run {
                Some(run) => match run.pid {
                    Some(pid) => seq![Deed::Kill(pid)],
                    None => Seq::empty(),
                },
                None => Seq::empty(),
            }),
    {
        match &self.run {
            Some(run) => match run.pid {
                Some(pid) => one_effect(Effect::Kill(pid)),
                None => no_effects(),
            },
            None => no_effects(),
        }
    }

    /// Takes in Ctrl+C.
    fn interrupt(&mut self) -> (r: Vec<Effect>)
        requires
            old(self).wf(),
        ensures
            final(self).wf(),
            interrupted(*old(self), *final(self), deeds(r@)),
    {
        broadcast use vstd::std_specs::hash::group_hash_axioms;

        if self.job_cancellable() {
            self.cancel_job()
        } else if self.job_cancelling() {
            self.force_kill_job()
        } else if self.queue.running && !self.queue.active.is_empty() {
            self.cancel_queue_jobs()
        } else {
            self.should_quit = true;
            no_effects()
        }
    }

    /// Takes in a key press on the screen for a missing FFmpeg.
    fn on_key_missing(&mut self, key: KeyEvent) -> (r: Vec<Effect>)
        requires
            old(self).wf(),
            key.modifiers <= ALL_MODIFIERS,
        ensures
            final(self).wf(),
            missing_screen_keyed(*old(self), key, *final(self), deeds(r@)),
    {
        if crate::ui::screens::missing_ffmpeg::on_key(&mut self.missing, key) {
            if let Some(path) = &self.missing.pending_path {
                return one_effect(
                    Effect::CheckPath {
                        ffmpeg: copy_text(path.as_str()),
                        ffprobe: copy_opt(&self.settings.general.ffprobe_path),
                    },
                );
            }
        }
        no_effects()
    }

    /// Takes in a key press.
    pub fn on_key(&mut self, key: KeyEvent, facts: &Facts) -> (r: Vec<Effect>)
        requires
            old(self).wf(),
            key.modifiers <= ALL_MODIFIERS,
            old(self).queue.next_id < u64::MAX,
        ensures
            final(self).wf(),
            app_keyed(*old(self), key, *facts, *final(self), deeds(r@)),
    {
        if key.has_control() {
            if let KeyCode::Char('c') = key.code {
                return self.interrupt();
            }
        }
        if self.preset_popup.is_some() {
            return self.on_key_preset_popup(key, facts);
        }
        if self.save_prompt.is_some() {
            return self.on_key_save_prompt(key);
        }
        if let KeyCode::Char('q') = key.code {
            if !self.has_text_focus() {
                if self.job_active() || self.queue.running {
                    self.status_message = Some(copy_text(WORKING));
                } else {
                    self.should_quit = true;
                }
                return no_effects();
            }
        }
        if let KeyCode::Char('Q') = key.code {
            if !self.has_text_focus() {
                let leads = match &self.screen {
                    Screen::OperationPicker | Screen::FileBrowser | Screen::ParameterForm => true,
                    _ => false,
                };
                if leads {
                    let here = self.screen.copy();
                    self.screen = Screen::Queue { return_to: Box::new(here) };
                    return no_effects();
                }
            }
        }
        match &self.screen {
            Screen::Startup => no_effects(),
            Screen::MissingFfmpeg => self.on_key_missing(key),
            Screen::OperationPicker => self.on_key_picker(key, facts),
            Screen::FileBrowser => self.on_key_browser(key, facts),
            Screen::ParameterForm => self.on_key_form(key, facts),
            Screen::Running => self.on_key_running(key, facts),
            Screen::Help { .. } => {
                self.close_overlay();
                no_effects()
            },
            Screen::Queue { .. } => self.on_key_queue(key),
        }
    }
}

} // verus!
