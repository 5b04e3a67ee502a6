//! A running scene: what pointer events and clicks do to it.

use vstd::prelude::*;

use crate::coord::Coord;
use crate::engine::{
    cache_grew, lemma_growth_adds_up, programs, CompiledExpr, ExprCache, ExprFault,
    ExpressionEngine,
};
use crate::flat::{flat_models, flatten_scene, flattened, FlatModel, FlatNode};
use crate::ids::NodeId;
use crate::interact::{
    build_eval_env, hit_author_id, hit_name, idle, is_present, refresh_interaction_after_rebuild,
    refreshed, scene_env, topmost_hit, validate_flat, InteractionModel, InteractionState,
    SceneValidation,
};
use crate::json::{trees_of, Json, JsonTree};
use crate::mutate::{apply_with_warnings, mutations_lead, opt_fault};
use crate::resolve::{law_resolved_scenes_are_plain, opt_model, resolve_with_warnings, resolves};
use crate::scene::{
    copy_mutations, copy_opt, is_plain, mutation_models, opt_text, Mutation, MutationModel,
    NodeModel, Scene, SceneModel, SceneNode,
};
use crate::strmap::StrMap;
use crate::text::same_text;
use crate::warning::{note_all, warning_models, Warning, WarningModel};

verus! {

/// A tree to draw, with its flattened form.
pub struct Layout<C: Coord> {
    pub(crate) scene: SceneNode<C>,
    pub(crate) flat: Vec<FlatNode<C>>,
}

impl<C: Coord> Layout<C> {
    /// The tree holds no choice, and the list of nodes is its flattened form.
    #[verifier::type_invariant]
    pub(crate) open spec fn inv(self) -> bool {
        &&& is_plain(self.scene@)
        &&& flat_models(self.flat@) == flattened(self.scene@)
    }

    /// Lay out a tree without choices.
    fn new(scene: SceneNode<C>) -> (r: Self)
        requires
            is_plain(scene@),
        ensures
            r.scene@ == scene@,
    {
        let flat = flatten_scene(&scene);
        Layout { scene, flat }
    }
}

/// A scene in use: its source, its state, what it resolved to last, and where
/// the pointer is.
pub struct Session<C: Coord, E: ExpressionEngine> {
    pub(crate) scene_src: SceneNode<C>,
    pub(crate) state: StrMap<Json>,
    pub(crate) layout: Layout<C>,
    pub(crate) interaction: InteractionState,
    pub(crate) last_cursor: Option<(C, C)>,
    pub(crate) engine: E,
    pub(crate) cache: ExprCache,
}

/// What a [`Session`] stands for.
pub struct SessionModel<C> {
    /// The source tree.
    pub source: NodeModel<C>,
    /// Scene state.
    pub state: Map<Seq<char>, JsonTree>,
    /// The resolved tree.
    pub scene: NodeModel<C>,
    /// What is hovered and pressed.
    pub interaction: InteractionModel,
    /// The last known pointer position, while the pointer is over the surface.
    pub cursor: Option<(C, C)>,
}

/// What came of an event after which the scene has to be drawn again.
pub struct Update {
    /// What the check of author ids found.
    pub validation: Result<(), SceneValidation>,
    /// The node whose mutations ran, if any did.
    pub clicked: Option<String>,
    /// What went wrong with expressions: those of the mutations that ran, then
    /// those of the scene.
    pub warnings: Vec<Warning>,
}

/// What an event brings to tell.
#[verifier::ext_equal]
pub struct News {
    /// The node whose mutations ran.
    pub clicked: Option<Seq<char>>,
    /// What went wrong with expressions.
    pub warnings: Seq<WarningModel>,
}

/// Nothing to tell.
pub open spec fn quiet() -> News {
    News { clicked: None, warnings: Seq::empty() }
}

/// What an event brings to tell, with more warnings.
pub open spec fn with_warnings(news: News, ws: Seq<WarningModel>) -> News {
    News { warnings: news.warnings + ws, ..news }
}

/// What an update tells.
pub open spec fn update_news(u: Option<Update>) -> News {
    match u {
        Some(u) => News { clicked: opt_text(u.clicked), warnings: warning_models(u.warnings@) },
        None => quiet(),
    }
}

/// The check of author ids comes out as it does for the scene `m`.
pub open spec fn validated<C: Coord>(m: NodeModel<C>, v: Result<(), SceneValidation>) -> bool {
    let fs = flattened(m);
    match v {
        Ok(()) => forall|i: int|
            0 <= i < fs.len() ==> !#[trigger] crate::interact::is_repeated(fs, i),
        Err(SceneValidation::DuplicateAuthorId { id, count }) => exists|i: int| #[trigger]
            crate::interact::first_repeated(fs, i) && fs[i].author_id == Some(id@) && count
                == crate::interact::name_count(fs, id@),
    }
}

/// Interaction state over a new list of nodes: names that are gone are
/// dropped, and the pointer hovers what is now under it.
pub open spec fn settled_over<C: Coord>(
    m: InteractionModel,
    fs: Seq<FlatModel<C>>,
    cursor: Option<(C, C)>,
) -> InteractionModel {
    match cursor {
        Some(at) => InteractionModel {
            hovered: hit_name(fs, at.0, at.1),
            ..refreshed(m, fs)
        },
        None => refreshed(m, fs),
    }
}

/// Whether a rebuild can lead from `before` to `after` with the warnings `ws`:
/// the source is resolved with the present interaction and scene state; where it
/// comes to nothing, the last resolved tree stays.
pub open spec fn rebuilt<C: Coord, E: ExpressionEngine>(
    engine: E,
    progs: spec_fn(Seq<char>) -> Result<CompiledExpr, ExprFault>,
    before: SessionModel<C>,
    after: SessionModel<C>,
    ws: Seq<WarningModel>,
) -> bool {
    exists|r: Option<NodeModel<C>>| #[trigger]
        resolves(
            engine,
            progs,
            scene_env(before.interaction, before.state),
            before.source,
            r,
            ws,
        ) && ({
            let scene = match r {
                Some(n) => n,
                None => before.scene,
            };
            after == (SessionModel {
                scene,
                interaction: settled_over(
                    before.interaction,
                    flattened(scene),
                    before.cursor,
                ),
                ..before
            })
        })
}

/// The mutations of the first node with the given name.
pub open spec fn click_mutations<C>(fs: Seq<FlatModel<C>>, name: Seq<char>) -> Seq<MutationModel> {
    if exists|i: int| first_named(fs, name, i) {
        fs[choose|i: int| first_named(fs, name, i)].on_click
    } else {
        Seq::empty()
    }
}

/// The node at `i` is the first with the given name.
pub open spec fn first_named<C>(fs: Seq<FlatModel<C>>, name: Seq<char>, i: int) -> bool {
    &&& 0 <= i < fs.len()
    &&& fs[i].author_id == Some(name)
    &&& forall|j: int| 0 <= j < i ==> (#[trigger] fs[j]).author_id != Some(name)
}

/// Whether a click on the node `name` can lead from `before` to `after`: its
/// mutations run, if it has any, and nothing but scene state changes.
pub open spec fn clicked<C: Coord, E: ExpressionEngine>(
    engine: E,
    progs: spec_fn(Seq<char>) -> Result<CompiledExpr, ExprFault>,
    name: Seq<char>,
    before: SessionModel<C>,
    after: SessionModel<C>,
    news: News,
) -> bool {
    let ms = click_mutations(flattened(before.scene), name);
    if ms.len() == 0 {
        after == before && news == quiet()
    } else {
        &&& exists|fault: Option<ExprFault>| #[trigger]
            mutations_lead(
                engine,
                progs,
                scene_env(before.interaction, before.state),
                ms,
                before.state,
                after.state,
                fault,
                news.warnings,
            )
        &&& news.clicked == Some(name)
        &&& after == (SessionModel { state: after.state, ..before })
    }
}

/// The author id of the first node with the given id.
pub open spec fn name_of_id<C>(fs: Seq<FlatModel<C>>, id: NodeId) -> Option<Seq<char>> {
    if exists|i: int| first_with_id(fs, id, i) {
        fs[choose|i: int| first_with_id(fs, id, i)].author_id
    } else {
        None
    }
}

/// The node at `i` is the first with the given id.
pub open spec fn first_with_id<C>(fs: Seq<FlatModel<C>>, id: NodeId, i: int) -> bool {
    &&& 0 <= i < fs.len()
    &&& fs[i].id == id
    &&& forall|j: int| 0 <= j < i ==> (#[trigger] fs[j]).id != id
}

/// Whether two optional texts are equal.
fn same_opt(a: &Option<String>, b: &Option<String>) -> (r: bool)
    ensures
        r == (opt_text(*a) == opt_text(*b)),
{
    match (a, b) {
        (Some(x), Some(y)) => same_text(x.as_str(), y.as_str()),
        (None, None) => true,
        _ => false,
    }
}

/// Whether starting a scene can lead to `r` with the warnings `ws`: the scene is
/// resolved with nothing hovered or pressed, and where it comes to nothing there
/// is no session.
pub open spec fn started<C: Coord, E: ExpressionEngine>(
    engine: E,
    scene: SceneModel<C>,
    r: Option<SessionModel<C>>,
    ws: Seq<WarningModel>,
) -> bool {
    exists|o: Option<NodeModel<C>>| #[trigger]
        resolves(
            engine,
            programs(engine, Map::empty()),
            scene_env(idle(), scene.state),
            scene.root,
            o,
            ws,
        ) && r == (match o {
            Some(tree) => Some(
                SessionModel {
                    source: scene.root,
                    state: scene.state,
                    scene: tree,
                    interaction: idle(),
                    cursor: None,
                },
            ),
            None => None,
        })
}

/// What an optional session stands for.
pub open spec fn opt_session<C: Coord, E: ExpressionEngine>(s: Option<Session<C, E>>) -> Option<
    SessionModel<C>,
> {
    match s {
        Some(s) => Some(s@),
        None => None,
    }
}

impl<C: Coord, E: ExpressionEngine> View for Session<C, E> {
    type V = SessionModel<C>;

    open(crate) spec fn view(&self) -> SessionModel<C> {
        SessionModel {
            source: self.scene_src@,
            state: trees_of(self.state@),
            scene: self.layout.scene@,
            interaction: self.interaction@,
            cursor: self.last_cursor,
        }
    }
}

impl<C: Coord, E: ExpressionEngine> Session<C, E> {
    /// What each source text compiles to in this session.
    pub open(crate) spec fn progs(&self) -> spec_fn(Seq<char>) -> Result<CompiledExpr, ExprFault> {
        programs(self.engine, self.cache@)
    }

    /// The engine of this session.
    pub open(crate) spec fn spec_engine(&self) -> E {
        self.engine
    }

    /// A session is still the same: the same engine, and every source compiles
    /// to what it did.
    pub open(crate) spec fn goes_on(&self, after: &Self) -> bool {
        &&& after.engine == self.engine
        &&& cache_grew(self.engine, self.cache@, after.cache@)
    }

    /// Start a session: resolve the scene with nothing hovered or pressed. There
    /// is no session for a scene that resolves to nothing.
    pub fn new(wrapped: Scene<C>, engine: E) -> (r: Option<Self>)
        ensures
            exists|ws: Seq<WarningModel>| #[trigger]
                started(engine, wrapped@, opt_session(r), ws),
            r matches Some(s) ==> s.spec_engine() == engine && s.progs() == programs(
                engine,
                Map::empty(),
            ),
    {
        let ghost whole = wrapped@;
        let (r, warnings) = Session::start(wrapped, engine);
        let ghost ws = warning_models(warnings@);
        assert(started(engine, whole, opt_session(r), ws));
        r
    }

    /// Start a session, and say what went wrong with expressions.
    pub fn start(wrapped: Scene<C>, engine: E) -> (r: (Option<Self>, Vec<Warning>))
        ensures
            started(engine, wrapped@, opt_session(r.0), warning_models(r.1@)),
            r.0 matches Some(s) ==> s.spec_engine() == engine && s.progs() == programs(
                engine,
                Map::empty(),
            ),
    {
        let ghost whole = wrapped@;
        let mut cache = ExprCache::new();
        let interaction = InteractionState::default();
        let Scene { state, root } = wrapped;
        let env = build_eval_env(&interaction, &state);
        let (resolved, warnings) = resolve_with_warnings(&root, &engine, &env, &mut cache);
        let ghost o = opt_model(resolved);
        let ghost ws = warning_models(warnings@);
        assert(resolves(
            engine,
            programs(engine, Map::empty()),
            scene_env(idle(), whole.state),
            whole.root,
            o,
            ws,
        ));
        match resolved {
            Some(scene) => {
                proof {
                    law_resolved_scenes_are_plain(
                        engine,
                        programs(engine, Map::empty()),
                        env@,
                        root@,
                        scene@,
                        ws,
                    );
                }
                let session = Session {
                    scene_src: root,
                    state,
                    layout: Layout::new(scene),
                    interaction,
                    last_cursor: None,
                    engine,
                    cache,
                };
                (Some(session), warnings)
            },
            None => (None, warnings),
        }
    }

    /// The tree to draw.
    pub fn scene(&self) -> (r: &SceneNode<C>)
        ensures
            r@ == self@.scene,
            is_plain(r@),
    {
        proof {
            use_type_invariant(&self.layout);
        }
        &self.layout.scene
    }

    /// The flattened nodes of the tree to draw.
    pub fn flat(&self) -> (r: &[FlatNode<C>])
        ensures
            flat_models(r@) == flattened(self@.scene),
    {
        proof {
            use_type_invariant(&self.layout);
        }
        self.layout.flat.as_slice()
    }

    /// Scene state.
    pub fn state(&self) -> (r: &StrMap<Json>)
        ensures
            trees_of(r@) == self@.state,
    {
        &self.state
    }

    /// What is hovered and pressed.
    pub fn interaction(&self) -> (r: &InteractionState)
        ensures
            r@ == self@.interaction,
    {
        &self.interaction
    }

    /// Check the author ids of the tree to draw.
    pub fn validate(&self) -> (r: Result<(), SceneValidation>)
        ensures
            validated(self@.scene, r),
    {
        validate_flat(self.flat())
    }

    /// Rebuild the tree to draw from interaction and scene state, then bring
    /// interaction state in line with it. No second rebuild follows: the next
    /// event corrects what is left.
    pub fn rebuild(&mut self) -> (r: (Result<(), SceneValidation>, Vec<Warning>))
        ensures
            rebuilt(
                old(self).spec_engine(),
                old(self).progs(),
                old(self)@,
                final(self)@,
                warning_models(r.1@),
            ),
            validated(final(self)@.scene, r.0),
            old(self).goes_on(final(self)),
    {
        let ghost before = self@;
        let ghost progs = self.progs();
        let env = build_eval_env(&self.interaction, &self.state);
        let (resolved, warnings) = resolve_with_warnings(
            &self.scene_src,
            &self.engine,
            &env,
            &mut self.cache,
        );
        let ghost o = opt_model(resolved);
        let ghost ws = warning_models(warnings@);
        assert(resolves(
            self.engine,
            progs,
            scene_env(before.interaction, before.state),
            before.source,
            o,
            ws,
        ));
        match resolved {
            Some(scene) => {
                proof {
                    law_resolved_scenes_are_plain(
                        self.engine,
                        progs,
                        env@,
                        before.source,
                        scene@,
                        ws,
                    );
                }
                self.layout = Layout::new(scene);
            },
            None => {},
        }
        proof {
            use_type_invariant(&self.layout);
        }
        let checked = validate_flat(self.layout.flat.as_slice());
        refresh_interaction_after_rebuild(&mut self.interaction, self.layout.flat.as_slice());
        match self.last_cursor {
            Some((x, y)) => {
                self.interaction.hovered = hit_author_id(self.layout.flat.as_slice(), x, y);
            },
            None => {},
        }
        (checked, warnings)
    }

    /// Run the mutations of the node with the given name. The result says whether
    /// there were any, and what went wrong with them.
    fn run_on_click_for(&mut self, id: &str) -> (r: (Option<String>, Vec<Warning>))
        ensures
            clicked(
                old(self).spec_engine(),
                old(self).progs(),
                id@,
                old(self)@,
                final(self)@,
                News { clicked: opt_text(r.0), warnings: warning_models(r.1@) },
            ),
            old(self).goes_on(final(self)),
    {
        let ms = self.mutations_of(id);
        if ms.len() == 0 {
            let none: Vec<Warning> = Vec::new();
            assert(warning_models(none@) =~= Seq::<WarningModel>::empty());
            assert(mutation_models(ms@).len() == 0);
            return (None, none);
        }
        let ghost start = *self;
        let env = build_eval_env(&self.interaction, &self.state);
        let (fault, warnings) = apply_with_warnings(
            &mut self.state,
            ms.as_slice(),
            &self.engine,
            &env,
            &mut self.cache,
        );
        let name = id.to_owned();
        let ghost first = opt_fault(fault);
        let ghost news = News { clicked: Some(name@), warnings: warning_models(warnings@) };
        proof {
            assert(mutation_models(ms@).len() > 0);
            assert(self@ == SessionModel { state: self@.state, ..start@ });
            assert(mutations_lead(
                start.engine,
                start.progs(),
                scene_env(start@.interaction, start@.state),
                click_mutations(flattened(start@.scene), id@),
                start@.state,
                self@.state,
                first,
                news.warnings,
            ));
            assert(clicked(start.engine, start.progs(), id@, start@, self@, news));
        }
        (Some(name), warnings)
    }

    /// The mutations of the first node with the given name.
    fn mutations_of(&self, id: &str) -> (r: Vec<Mutation>)
        ensures
            mutation_models(r@) == click_mutations(flattened(self@.scene), id@),
    {
        let flat = self.flat();
        let ghost fs = flattened(self@.scene);
        let mut i: usize = 0;
        while i < flat.len()
            invariant
                fs == flat_models(flat@),
                fs == flattened(self@.scene),
                i <= flat@.len(),
                forall|j: int| 0 <= j < i ==> (#[trigger] fs[j]).author_id != Some(id@),
            decreases flat@.len() - i,
        {
            assert(fs[i as int] == flat@[i as int]@);
            let matches = match &flat[i].author_id {
                Some(s) => same_text(s.as_str(), id),
                None => false,
            };
            if matches {
                proof {
                    assert(first_named(fs, id@, i as int));
                    let k = choose|k: int| first_named(fs, id@, k);
                    assert(k == i) by {
                        if k < i {
                            assert(fs[k].author_id != Some(id@));
                        }
                        if i < k {
                            assert(fs[i as int].author_id != Some(id@));
                        }
                    }
                }
                return copy_mutations(&flat[i].on_click);
            }
            i = i + 1;
        }
        let none: Vec<Mutation> = Vec::new();
        assert(mutation_models(none@) =~= Seq::empty());
        none
    }

    /// The pointer moved to `(x, y)`. If it is over another node than before,
    /// the scene is rebuilt.
    pub fn pointer_moved(&mut self, x: C, y: C) -> (r: Option<Update>)
        ensures
            moved(
                old(self).spec_engine(),
                old(self).progs(),
                x,
                y,
                old(self)@,
                final(self)@,
                r is Some,
                update_news(r),
            ),
            r matches Some(u) ==> validated(final(self)@.scene, u.validation),
            old(self).goes_on(final(self)),
    {
        self.last_cursor = Some((x, y));
        proof {
            use_type_invariant(&self.layout);
        }
        let over = hit_author_id(self.layout.flat.as_slice(), x, y);
        if same_opt(&over, &self.interaction.hovered) {
            return None;
        }
        self.interaction.hovered = over;
        let (validation, warnings) = self.rebuild();
        Some(Update { validation, clicked: None, warnings })
    }

    /// The pointer left the surface: nothing is hovered or pressed any more.
    pub fn pointer_left(&mut self) -> (r: Option<Update>)
        ensures
            left(
                old(self).spec_engine(),
                old(self).progs(),
                old(self)@,
                final(self)@,
                r is Some,
                update_news(r),
            ),
            r matches Some(u) ==> validated(final(self)@.scene, u.validation),
            old(self).goes_on(final(self)),
    {
        self.last_cursor = None;
        if self.interaction.hovered.is_none() && self.interaction.pressed.is_none() {
            return None;
        }
        self.interaction.hovered = None;
        self.interaction.pressed = None;
        let (validation, warnings) = self.rebuild();
        Some(Update { validation, clicked: None, warnings })
    }

    /// The button went down: what is hovered is now pressed.
    pub fn pointer_pressed(&mut self) -> (r: Option<Update>)
        ensures
            pressed_down(
                old(self).spec_engine(),
                old(self).progs(),
                old(self)@,
                final(self)@,
                r is Some,
                update_news(r),
            ),
            r matches Some(u) ==> validated(final(self)@.scene, u.validation),
            old(self).goes_on(final(self)),
    {
        if same_opt(&self.interaction.hovered, &self.interaction.pressed) {
            return None;
        }
        self.interaction.pressed = copy_opt(&self.interaction.hovered);
        let (validation, warnings) = self.rebuild();
        Some(Update { validation, clicked: None, warnings })
    }

    /// The button went up. If the pointer is still over the node on which it
    /// went down, that node is clicked. The scene is rebuilt in any case.
    pub fn pointer_released(&mut self) -> (r: Update)
        ensures
            released(
                old(self).spec_engine(),
                old(self).progs(),
                old(self)@,
                final(self)@,
                update_news(Some(r)),
            ),
            validated(final(self)@.scene, r.validation),
            old(self).goes_on(final(self)),
    {
        let ghost start = *self;
        let pressed = copy_opt(&self.interaction.pressed);
        self.interaction.pressed = None;
        let ghost freed = self@;
        let mut clicked: Option<String> = None;
        let mut warnings: Vec<Warning> = Vec::new();
        assert(warning_models(warnings@) =~= Seq::<WarningModel>::empty());
        if same_opt(&pressed, &self.interaction.hovered) {
            match &pressed {
                Some(id) => {
                    let (ran, said) = self.run_on_click_for(id.as_str());
                    clicked = ran;
                    warnings = said;
                },
                None => {},
            }
        }
        let ghost mid = *self;
        let ghost first = News { clicked: opt_text(clicked), warnings: warning_models(warnings@) };
        assert(release_click(start.engine, start.progs(), start@, mid@, first));
        let (validation, more) = self.rebuild();
        let ghost ws = warning_models(more@);
        note_all(&mut warnings, more);
        proof {
            lemma_growth_adds_up(start.engine, start.cache@, mid.cache@, self.cache@);
            assert(rebuilt(start.engine, start.progs(), mid@, self@, ws));
        }
        let r = Update { validation, clicked, warnings };
        assert(update_news(Some(r)) =~= with_warnings(first, ws));
        r
    }

    /// Assistive technology asked for a click on the node with the given id.
    /// Nothing happens if there is none, or if its author did not name it.
    pub fn action_requested(&mut self, target: NodeId) -> (r: Option<Update>)
        ensures
            acted_on(
                old(self).spec_engine(),
                old(self).progs(),
                target,
                old(self)@,
                final(self)@,
                r is Some,
                update_news(r),
            ),
            r matches Some(u) ==> validated(final(self)@.scene, u.validation),
            old(self).goes_on(final(self)),
    {
        let ghost start = *self;
        match self.author_id_of(target) {
            Some(id) => {
                let (ran, said) = self.run_on_click_for(id.as_str());
                let mut warnings = said;
                let ghost mid = *self;
                let ghost first = News { clicked: opt_text(ran), warnings: warning_models(said@) };
                assert(clicked(start.engine, start.progs(), id@, start@, mid@, first));
                let (validation, more) = self.rebuild();
                let ghost ws = warning_models(more@);
                note_all(&mut warnings, more);
                proof {
                    lemma_growth_adds_up(start.engine, start.cache@, mid.cache@, self.cache@);
                    assert(rebuilt(start.engine, start.progs(), mid@, self@, ws));
                }
                let r = Some(Update { validation, clicked: ran, warnings });
                assert(update_news(r) =~= with_warnings(first, ws));
                r
            },
            None => None,
        }
    }

    /// Take an event. The result says what came of it if the scene has to be
    /// drawn again.
    pub fn handle(&mut self, event: &InputEvent<C>) -> (r: Option<Update>)
        ensures
            handled(
                old(self).spec_engine(),
                old(self).progs(),
                *event,
                old(self)@,
                final(self)@,
                r is Some,
                update_news(r),
            ),
            r matches Some(u) ==> validated(final(self)@.scene, u.validation),
            old(self).goes_on(final(self)),
    {
        match event {
            InputEvent::PointerMoved { x, y } => self.pointer_moved(*x, *y),
            InputEvent::PointerLeft => self.pointer_left(),
            InputEvent::ButtonPressed { primary } => if *primary {
                self.pointer_pressed()
            } else {
                None
            },
            InputEvent::ButtonReleased { primary } => if *primary {
                Some(self.pointer_released())
            } else {
                None
            },
            InputEvent::ActionRequested { click, target } => if *click {
                self.action_requested(*target)
            } else {
                None
            },
        }
    }

    /// The author id of the first node with the given id.
    fn author_id_of(&self, target: NodeId) -> (r: Option<String>)
        ensures
            opt_text(r) == name_of_id(flattened(self@.scene), target),
    {
        let flat = self.flat();
        let ghost fs = flattened(self@.scene);
        let mut i: usize = 0;
        while i < flat.len()
            invariant
                fs == flat_models(flat@),
                fs == flattened(self@.scene),
                i <= flat@.len(),
                forall|j: int| 0 <= j < i ==> (#[trigger] fs[j]).id != target,
            decreases flat@.len() - i,
        {
            assert(fs[i as int] == flat@[i as int]@);
            if flat[i].id == target {
                proof {
                    assert(first_with_id(fs, target, i as int));
                    let k = choose|k: int| first_with_id(fs, target, k);
                    assert(k == i) by {
                        if k < i {
                            assert(fs[k].id != target);
                        }
                        if i < k {
                            assert(fs[i as int].id != target);
                        }
                    }
                }
                return copy_opt(&flat[i].author_id);
            }
            i = i + 1;
        }
        None
    }
}

/// Whether a move of the pointer to `(x, y)` can lead from `before` to `after`.
/// The scene is rebuilt if the pointer is over another node than before.
pub open spec fn moved<C: Coord, E: ExpressionEngine>(
    engine: E,
    progs: spec_fn(Seq<char>) -> Result<CompiledExpr, ExprFault>,
    x: C,
    y: C,
    before: SessionModel<C>,
    after: SessionModel<C>,
    redraw: bool,
    news: News,
) -> bool {
    let here = SessionModel { cursor: Some((x, y)), ..before };
    let over = hit_name(flattened(before.scene), x, y);
    if over == before.interaction.hovered {
        !redraw && after == here && news == quiet()
    } else {
        redraw && news.clicked is None && rebuilt(
            engine,
            progs,
            SessionModel {
                interaction: InteractionModel { hovered: over, ..before.interaction },
                ..here
            },
            after,
            news.warnings,
        )
    }
}

/// Whether the pointer's leaving the surface can lead from `before` to `after`.
/// The scene is rebuilt if something was hovered or pressed.
pub open spec fn left<C: Coord, E: ExpressionEngine>(
    engine: E,
    progs: spec_fn(Seq<char>) -> Result<CompiledExpr, ExprFault>,
    before: SessionModel<C>,
    after: SessionModel<C>,
    redraw: bool,
    news: News,
) -> bool {
    let gone = SessionModel { cursor: None, ..before };
    if before.interaction == idle() {
        !redraw && after == gone && news == quiet()
    } else {
        redraw && news.clicked is None && rebuilt(
            engine,
            progs,
            SessionModel { interaction: idle(), ..gone },
            after,
            news.warnings,
        )
    }
}

/// Whether pressing the button can lead from `before` to `after`. The scene is
/// rebuilt if what is pressed changes.
pub open spec fn pressed_down<C: Coord, E: ExpressionEngine>(
    engine: E,
    progs: spec_fn(Seq<char>) -> Result<CompiledExpr, ExprFault>,
    before: SessionModel<C>,
    after: SessionModel<C>,
    redraw: bool,
    news: News,
) -> bool {
    if before.interaction.hovered == before.interaction.pressed {
        !redraw && after == before && news == quiet()
    } else {
        redraw && news.clicked is None && rebuilt(
            engine,
            progs,
            SessionModel {
                interaction: InteractionModel {
                    pressed: before.interaction.hovered,
                    ..before.interaction
                },
                ..before
            },
            after,
            news.warnings,
        )
    }
}

/// Whether a click on the node `target`, asked for by assistive technology, can
/// lead from `before` to `after`. Nodes without a name take no part.
pub open spec fn acted_on<C: Coord, E: ExpressionEngine>(
    engine: E,
    progs: spec_fn(Seq<char>) -> Result<CompiledExpr, ExprFault>,
    target: NodeId,
    before: SessionModel<C>,
    after: SessionModel<C>,
    redraw: bool,
    news: News,
) -> bool {
    match name_of_id(flattened(before.scene), target) {
        Some(name) => redraw && exists|mid: SessionModel<C>, first: News, ws: Seq<WarningModel>|
            #![trigger clicked(engine, progs, name, before, mid, first), with_warnings(first, ws)]
            clicked(engine, progs, name, before, mid, first) && rebuilt(
                engine,
                progs,
                mid,
                after,
                ws,
            ) && news == with_warnings(first, ws),
        None => !redraw && after == before && news == quiet(),
    }
}

/// What a window or a page reports.
pub enum InputEvent<C> {
    /// The pointer moved.
    PointerMoved {
        /// Horizontal position.
        x: C,
        /// Vertical position.
        y: C,
    },
    /// The pointer left the surface.
    PointerLeft,
    /// A button went down.
    ButtonPressed {
        /// Whether it is the left one.
        primary: bool,
    },
    /// A button went up.
    ButtonReleased {
        /// Whether it is the left one.
        primary: bool,
    },
    /// Assistive technology asked for an action on a node.
    ActionRequested {
        /// Whether the action is a click.
        click: bool,
        /// The node.
        target: NodeId,
    },
}

/// Whether an event can lead from `before` to `after`, with `news` to tell.
/// Buttons other than the left one, and actions other than a click, change
/// nothing.
pub open spec fn handled<C: Coord, E: ExpressionEngine>(
    engine: E,
    progs: spec_fn(Seq<char>) -> Result<CompiledExpr, ExprFault>,
    event: InputEvent<C>,
    before: SessionModel<C>,
    after: SessionModel<C>,
    redraw: bool,
    news: News,
) -> bool {
    match event {
        InputEvent::PointerMoved { x, y } => moved(
            engine,
            progs,
            x,
            y,
            before,
            after,
            redraw,
            news,
        ),
        InputEvent::PointerLeft => left(engine, progs, before, after, redraw, news),
        InputEvent::ButtonPressed { primary: true } => pressed_down(
            engine,
            progs,
            before,
            after,
            redraw,
            news,
        ),
        InputEvent::ButtonReleased { primary: true } => redraw && released(
            engine,
            progs,
            before,
            after,
            news,
        ),
        InputEvent::ActionRequested { click: true, target } => acted_on(
            engine,
            progs,
            target,
            before,
            after,
            redraw,
            news,
        ),
        _ => !redraw && news == quiet() && after == before,
    }
}

/// Whether letting go of the button can lead from `before` to `after`, apart
/// from the rebuild: nothing is pressed any more, and the node that was is
/// clicked if it is hovered.
pub open spec fn release_click<C: Coord, E: ExpressionEngine>(
    engine: E,
    progs: spec_fn(Seq<char>) -> Result<CompiledExpr, ExprFault>,
    before: SessionModel<C>,
    after: SessionModel<C>,
    news: News,
) -> bool {
    let freed = SessionModel {
        interaction: InteractionModel { pressed: None, ..before.interaction },
        ..before
    };
    match before.interaction.pressed {
        Some(name) => if before.interaction.hovered == Some(name) {
            clicked(engine, progs, name, freed, after, news)
        } else {
            after == freed && news == quiet()
        },
        None => after == freed && news == quiet(),
    }
}

/// Whether letting go of the button can lead from `before` to `after`.
pub open spec fn released<C: Coord, E: ExpressionEngine>(
    engine: E,
    progs: spec_fn(Seq<char>) -> Result<CompiledExpr, ExprFault>,
    before: SessionModel<C>,
    after: SessionModel<C>,
    news: News,
) -> bool {
    exists|mid: SessionModel<C>, first: News, ws: Seq<WarningModel>|
        #![trigger release_click(engine, progs, before, mid, first), with_warnings(first, ws)]
        release_click(engine, progs, before, mid, first) && rebuilt(
            engine,
            progs,
            mid,
            after,
            ws,
        ) && news == with_warnings(first, ws)
}

/// A click fires only where the button goes up over the node on which it went
/// down: elsewhere scene state stays as it was.
pub proof fn law_click_needs_press_and_release_on_one_node<C: Coord, E: ExpressionEngine>(
    engine: E,
    progs: spec_fn(Seq<char>) -> Result<CompiledExpr, ExprFault>,
    before: SessionModel<C>,
    after: SessionModel<C>,
    news: News,
)
    requires
        released(engine, progs, before, after, news),
        before.interaction.pressed is None || before.interaction.pressed
            != before.interaction.hovered,
    ensures
        after.state == before.state,
        news.clicked is None,
{
}

/// Only a click changes scene state: moving, leaving and pressing do not.
pub proof fn law_only_clicks_change_state<C: Coord, E: ExpressionEngine>(
    engine: E,
    progs: spec_fn(Seq<char>) -> Result<CompiledExpr, ExprFault>,
    event: InputEvent<C>,
    before: SessionModel<C>,
    after: SessionModel<C>,
    redraw: bool,
    news: News,
)
    requires
        handled(engine, progs, event, before, after, redraw, news),
        event !is ButtonReleased,
        event !is ActionRequested,
    ensures
        after.state == before.state,
{
}

/// No event changes the source of a scene, and what is not drawn again has not
/// changed.
pub proof fn law_events_keep_the_source<C: Coord, E: ExpressionEngine>(
    engine: E,
    progs: spec_fn(Seq<char>) -> Result<CompiledExpr, ExprFault>,
    event: InputEvent<C>,
    before: SessionModel<C>,
    after: SessionModel<C>,
    redraw: bool,
    news: News,
)
    requires
        handled(engine, progs, event, before, after, redraw, news),
    ensures
        after.source == before.source,
        !redraw ==> after.scene == before.scene && after.state == before.state && after.interaction
            == before.interaction,
{
}

/// The name of a hit is that of a node that is there.
proof fn lemma_hit_is_present<C: Coord>(fs: Seq<FlatModel<C>>, x: C, y: C)
    ensures
        hit_name(fs, x, y) matches Some(name) ==> is_present(fs, name),
{
    if exists|i: int| topmost_hit(fs, x, y, i) {
        let i = choose|i: int| topmost_hit(fs, x, y, i);
        assert(fs[i].author_id == hit_name(fs, x, y));
    }
}

/// After a rebuild, what is hovered and pressed is in the scene; source, state
/// and pointer position are as they were.
pub proof fn law_rebuild_leaves_no_stale_names<C: Coord, E: ExpressionEngine>(
    engine: E,
    progs: spec_fn(Seq<char>) -> Result<CompiledExpr, ExprFault>,
    before: SessionModel<C>,
    after: SessionModel<C>,
    ws: Seq<WarningModel>,
)
    requires
        rebuilt(engine, progs, before, after, ws),
    ensures
        after.interaction.hovered matches Some(h) ==> is_present(flattened(after.scene), h),
        after.interaction.pressed matches Some(p) ==> is_present(flattened(after.scene), p),
        after.source == before.source,
        after.state == before.state,
        after.cursor == before.cursor,
{
    match after.cursor {
        Some(at) => {
            lemma_hit_is_present(flattened(after.scene), at.0, at.1);
        },
        None => {},
    }
}

/// A click on a name that no node has changes nothing.
pub proof fn law_click_on_nothing_changes_nothing<C: Coord, E: ExpressionEngine>(
    engine: E,
    progs: spec_fn(Seq<char>) -> Result<CompiledExpr, ExprFault>,
    name: Seq<char>,
    before: SessionModel<C>,
    after: SessionModel<C>,
    news: News,
)
    requires
        clicked(engine, progs, name, before, after, news),
        !is_present(flattened(before.scene), name),
    ensures
        after == before,
        news == quiet(),
{
    let fs = flattened(before.scene);
    assert forall|i: int| !first_named(fs, name, i) by {
        if first_named(fs, name, i) {
            assert(fs[i].author_id == Some(name));
        }
    }
    assert(click_mutations(fs, name).len() == 0);
}

/// There is at most one first node with a name.
proof fn lemma_first_named_is_unique<C>(fs: Seq<FlatModel<C>>, name: Seq<char>, i: int, j: int)
    requires
        first_named(fs, name, i),
        first_named(fs, name, j),
    ensures
        i == j,
{
    if i < j {
        assert(fs[i].author_id != Some(name));
    }
    if j < i {
        assert(fs[j].author_id != Some(name));
    }
}

/// A click on a name runs what the first node with that name has to run, whatever
/// the kind of the node, and nothing where no node has the name.
pub proof fn law_clicks_run_the_mutations_of_the_first_node<C>(
    fs: Seq<FlatModel<C>>,
    name: Seq<char>,
    i: int,
)
    ensures
        0 <= i < fs.len() && fs[i].author_id == Some(name) && (forall|j: int|
            0 <= j < i ==> (#[trigger] fs[j]).author_id != Some(name)) ==> click_mutations(fs, name)
            == fs[i].on_click,
        (forall|j: int| 0 <= j < fs.len() ==> (#[trigger] fs[j]).author_id != Some(name))
            ==> click_mutations(fs, name).len() == 0,
{
    if 0 <= i < fs.len() && fs[i].author_id == Some(name) && (forall|j: int|
        0 <= j < i ==> (#[trigger] fs[j]).author_id != Some(name)) {
        assert(first_named(fs, name, i));
        lemma_first_named_is_unique(fs, name, i, choose|k: int| first_named(fs, name, k));
    }
    if forall|j: int| 0 <= j < fs.len() ==> (#[trigger] fs[j]).author_id != Some(name) {
        assert forall|k: int| !first_named(fs, name, k) by {
            if first_named(fs, name, k) {
                assert(fs[k].author_id == Some(name));
            }
        }
    }
}

/// What is shown is what the source resolves to with `met` hovered and pressed and
/// with the state afterwards, and the tree from before where that is nothing; the
/// warnings `ws` come of it.
pub open spec fn shown_with<C: Coord, E: ExpressionEngine>(
    engine: E,
    progs: spec_fn(Seq<char>) -> Result<CompiledExpr, ExprFault>,
    met: InteractionModel,
    before: SessionModel<C>,
    after: SessionModel<C>,
    ws: Seq<WarningModel>,
) -> bool {
    let env = scene_env(met, after.state);
    resolves(engine, progs, env, before.source, Some(after.scene), ws) || (after.scene
        == before.scene && resolves(engine, progs, env, before.source, None, ws))
}

/// Letting go of the button over the node on which it went down runs that node's
/// mutations, if it has any, whatever its kind: they lead from the state before
/// to the state after, and the node is told of. If it has none, state stays and
/// no node is told of. The scene is then shown with the new state; what went wrong
/// with the mutations is told before what went wrong with the scene.
pub proof fn law_release_over_the_pressed_node_clicks_it<C: Coord, E: ExpressionEngine>(
    engine: E,
    progs: spec_fn(Seq<char>) -> Result<CompiledExpr, ExprFault>,
    before: SessionModel<C>,
    after: SessionModel<C>,
    news: News,
    name: Seq<char>,
    i: int,
)
    requires
        released(engine, progs, before, after, news),
        before.interaction.pressed == Some(name),
        before.interaction.hovered == Some(name),
        0 <= i < flattened(before.scene).len(),
        flattened(before.scene)[i].author_id == Some(name),
        forall|j: int|
            0 <= j < i ==> (#[trigger] flattened(before.scene)[j]).author_id != Some(name),
    ensures
        flattened(before.scene)[i].on_click.len() > 0 ==> news.clicked == Some(name) && exists|
            fault: Option<ExprFault>,
            said: Seq<WarningModel>,
            ws: Seq<WarningModel>,
        |
            #![trigger mutations_lead(
                engine,
                progs,
                scene_env(
                    InteractionModel { hovered: Some(name), pressed: None },
                    before.state,
                ),
                flattened(before.scene)[i].on_click,
                before.state,
                after.state,
                fault,
                said,
            ), said + ws]
            mutations_lead(
                engine,
                progs,
                scene_env(
                    InteractionModel { hovered: Some(name), pressed: None },
                    before.state,
                ),
                flattened(before.scene)[i].on_click,
                before.state,
                after.state,
                fault,
                said,
            ) && news.warnings == said + ws && shown_with(
                engine,
                progs,
                InteractionModel { hovered: Some(name), pressed: None },
                before,
                after,
                ws,
            ),
        flattened(before.scene)[i].on_click.len() == 0 ==> news.clicked is None && after.state
            == before.state && shown_with(
            engine,
            progs,
            InteractionModel { hovered: Some(name), pressed: None },
            before,
            after,
            news.warnings,
        ),
        after.source == before.source,
        after.cursor == before.cursor,
{
    let fs = flattened(before.scene);
    law_clicks_run_the_mutations_of_the_first_node(fs, name, i);
    let (mid, first, ws) = choose|mid: SessionModel<C>, first: News, ws: Seq<WarningModel>|
        #![trigger release_click(engine, progs, before, mid, first), with_warnings(first, ws)]
        release_click(engine, progs, before, mid, first) && rebuilt(engine, progs, mid, after, ws)
            && news == with_warnings(first, ws);
    law_rebuild_leaves_no_stale_names(engine, progs, mid, after, ws);
    let freed = SessionModel {
        interaction: InteractionModel { pressed: None, ..before.interaction },
        ..before
    };
    assert(clicked(engine, progs, name, freed, mid, first));
    if fs[i].on_click.len() > 0 {
        let fault = choose|fault: Option<ExprFault>| #[trigger]
            mutations_lead(
                engine,
                progs,
                scene_env(freed.interaction, freed.state),
                fs[i].on_click,
                freed.state,
                mid.state,
                fault,
                first.warnings,
            );
        assert(mutations_lead(
            engine,
            progs,
            scene_env(InteractionModel { hovered: Some(name), pressed: None }, before.state),
            fs[i].on_click,
            before.state,
            after.state,
            fault,
            first.warnings,
        ));
    }
}

/// A click that assistive technology asks for runs the mutations of the node with
/// that id, if its author named it and no node before it has the id or the name,
/// whatever its kind. A node that its author did not name takes no click.
/// The scene is then shown with the new state; what went wrong with the mutations
/// is told before what went wrong with the scene.
pub proof fn law_requested_clicks_reach_their_node<C: Coord, E: ExpressionEngine>(
    engine: E,
    progs: spec_fn(Seq<char>) -> Result<CompiledExpr, ExprFault>,
    target: NodeId,
    before: SessionModel<C>,
    after: SessionModel<C>,
    redraw: bool,
    news: News,
    i: int,
)
    requires
        acted_on(engine, progs, target, before, after, redraw, news),
        0 <= i < flattened(before.scene).len(),
        flattened(before.scene)[i].id == target,
        forall|j: int|
            0 <= j < i ==> (#[trigger] flattened(before.scene)[j]).id != target && flattened(
                before.scene,
            )[j].author_id != flattened(before.scene)[i].author_id,
    ensures
        flattened(before.scene)[i].author_id is None ==> !redraw && after == before && news.clicked
            is None,
        flattened(before.scene)[i].author_id matches Some(name) ==> {
            let ms = flattened(before.scene)[i].on_click;
            &&& redraw
            &&& ms.len() == 0 ==> news.clicked is None && after.state == before.state && shown_with(
                engine,
                progs,
                before.interaction,
                before,
                after,
                news.warnings,
            )
            &&& ms.len() > 0 ==> news.clicked == Some(name) && exists|
                fault: Option<ExprFault>,
                said: Seq<WarningModel>,
                ws: Seq<WarningModel>,
            |
                #![trigger mutations_lead(
                    engine,
                    progs,
                    scene_env(before.interaction, before.state),
                    ms,
                    before.state,
                    after.state,
                    fault,
                    said,
                ), said + ws]
                mutations_lead(
                    engine,
                    progs,
                    scene_env(before.interaction, before.state),
                    ms,
                    before.state,
                    after.state,
                    fault,
                    said,
                ) && news.warnings == said + ws && shown_with(
                    engine,
                    progs,
                    before.interaction,
                    before,
                    after,
                    ws,
                )
        },
{
    let fs = flattened(before.scene);
    assert(first_with_id(fs, target, i));
    let k = choose|k: int| first_with_id(fs, target, k);
    assert(k == i) by {
        if k < i {
            assert(fs[k].id != target);
        }
        if i < k {
            assert(fs[i].id != target);
        }
    }
    if let Some(name) = fs[i].author_id {
        law_clicks_run_the_mutations_of_the_first_node(fs, name, i);
        let (mid, first, ws) = choose|mid: SessionModel<C>, first: News, ws: Seq<WarningModel>|
            #![trigger clicked(engine, progs, name, before, mid, first), with_warnings(first, ws)]
            clicked(engine, progs, name, before, mid, first) && rebuilt(
                engine,
                progs,
                mid,
                after,
                ws,
            ) && news == with_warnings(first, ws);
        law_rebuild_leaves_no_stale_names(engine, progs, mid, after, ws);
        if fs[i].on_click.len() > 0 {
            let fault = choose|fault: Option<ExprFault>| #[trigger]
                mutations_lead(
                    engine,
                    progs,
                    scene_env(before.interaction, before.state),
                    fs[i].on_click,
                    before.state,
                    mid.state,
                    fault,
                    first.warnings,
                );
            assert(mutations_lead(
                engine,
                progs,
                scene_env(before.interaction, before.state),
                fs[i].on_click,
                before.state,
                after.state,
                fault,
                first.warnings,
            ));
        }
    }
}

/// An action on an id that no node has changes nothing.
pub proof fn law_actions_on_unknown_ids_change_nothing<C: Coord, E: ExpressionEngine>(
    engine: E,
    progs: spec_fn(Seq<char>) -> Result<CompiledExpr, ExprFault>,
    target: NodeId,
    before: SessionModel<C>,
    after: SessionModel<C>,
    redraw: bool,
    news: News,
)
    requires
        acted_on(engine, progs, target, before, after, redraw, news),
        forall|j: int|
            0 <= j < flattened(before.scene).len() ==> (#[trigger] flattened(before.scene)[j]).id
                != target,
    ensures
        !redraw,
        after == before,
        news.clicked is None,
{
    let fs = flattened(before.scene);
    assert forall|k: int| !first_with_id(fs, target, k) by {
        if first_with_id(fs, target, k) {
            assert(fs[k].id == target);
        }
    }
}

/// After a move the pointer is where it moved to, and what is hovered is what is
/// under it in the scene that is then shown: the topmost named node there.
/// Nothing is clicked, and scene state stays.
pub proof fn law_the_pointer_hovers_what_is_under_it<C: Coord, E: ExpressionEngine>(
    engine: E,
    progs: spec_fn(Seq<char>) -> Result<CompiledExpr, ExprFault>,
    x: C,
    y: C,
    before: SessionModel<C>,
    after: SessionModel<C>,
    redraw: bool,
    news: News,
)
    requires
        moved(engine, progs, x, y, before, after, redraw, news),
    ensures
        after.cursor == Some((x, y)),
        after.interaction.hovered == hit_name(flattened(after.scene), x, y),
        redraw <==> hit_name(flattened(before.scene), x, y) != before.interaction.hovered,
        !redraw ==> after.interaction.pressed == before.interaction.pressed && after.scene
            == before.scene,
        after.interaction.pressed is Some ==> after.interaction.pressed
            == before.interaction.pressed,
        news.clicked is None,
        after.state == before.state,
{
}

/// When the pointer has left, it is nowhere, and nothing is hovered or pressed.
pub proof fn law_nothing_is_hovered_after_leaving<C: Coord, E: ExpressionEngine>(
    engine: E,
    progs: spec_fn(Seq<char>) -> Result<CompiledExpr, ExprFault>,
    before: SessionModel<C>,
    after: SessionModel<C>,
    redraw: bool,
    news: News,
)
    requires
        left(engine, progs, before, after, redraw, news),
    ensures
        after.cursor is None,
        after.interaction.hovered is None,
        after.interaction.pressed is None,
        redraw <==> before.interaction.hovered is Some || before.interaction.pressed is Some,
        news.clicked is None,
        after.state == before.state,
{
    assert(before.interaction.hovered is None && before.interaction.pressed is None
        ==> before.interaction == idle());
}

/// Pressing the button presses what is hovered: it is pressed afterwards as long
/// as the scene that is then shown holds it, and nothing else is.
pub proof fn law_pressing_presses_what_is_hovered<C: Coord, E: ExpressionEngine>(
    engine: E,
    progs: spec_fn(Seq<char>) -> Result<CompiledExpr, ExprFault>,
    before: SessionModel<C>,
    after: SessionModel<C>,
    redraw: bool,
    news: News,
)
    requires
        pressed_down(engine, progs, before, after, redraw, news),
    ensures
        redraw <==> before.interaction.hovered != before.interaction.pressed,
        before.interaction.hovered is None ==> after.interaction.pressed is None,
        before.interaction.hovered matches Some(name) && (!redraw || exists|i: int|
            0 <= i < flattened(after.scene).len() && (#[trigger] flattened(
                after.scene,
            )[i]).author_id == Some(name)) ==> after.interaction.pressed
            == before.interaction.hovered,
        after.interaction.pressed is Some ==> after.interaction.pressed
            == before.interaction.hovered,
        after.cursor == before.cursor,
        news.clicked is None,
        after.state == before.state,
{
}

/// After the button was let go, nothing is pressed.
pub proof fn law_nothing_is_pressed_after_release<C: Coord, E: ExpressionEngine>(
    engine: E,
    progs: spec_fn(Seq<char>) -> Result<CompiledExpr, ExprFault>,
    before: SessionModel<C>,
    after: SessionModel<C>,
    news: News,
)
    requires
        released(engine, progs, before, after, news),
    ensures
        after.interaction.pressed is None,
        after.cursor == before.cursor,
        after.source == before.source,
{
}

/// What is shown after a rebuild is what the source resolves to with what is
/// hovered, pressed and stored, and the tree from before where that is nothing.
/// What was pressed stays so exactly if it is still there; what is hovered is
/// what is under the pointer and, where the pointer is nowhere, what was hovered
/// and is still there.
pub proof fn law_rebuild_shows_what_the_source_resolves_to<C: Coord, E: ExpressionEngine>(
    engine: E,
    progs: spec_fn(Seq<char>) -> Result<CompiledExpr, ExprFault>,
    before: SessionModel<C>,
    after: SessionModel<C>,
    ws: Seq<WarningModel>,
)
    requires
        rebuilt(engine, progs, before, after, ws),
    ensures
        resolves(
            engine,
            progs,
            scene_env(before.interaction, before.state),
            before.source,
            Some(after.scene),
            ws,
        ) || (after.scene == before.scene && resolves(
            engine,
            progs,
            scene_env(before.interaction, before.state),
            before.source,
            None,
            ws,
        )),
        before.interaction.pressed matches Some(p) ==> after.interaction.pressed == (if exists|
            i: int,
        |
            0 <= i < flattened(after.scene).len() && (#[trigger] flattened(
                after.scene,
            )[i]).author_id == Some(p) {
            Some(p)
        } else {
            None
        }),
        before.interaction.pressed is None ==> after.interaction.pressed is None,
        before.cursor matches Some(at) ==> after.interaction.hovered == hit_name(
            flattened(after.scene),
            at.0,
            at.1,
        ),
        before.cursor is None ==> (before.interaction.hovered matches Some(h)
            ==> after.interaction.hovered == (if exists|i: int|
            0 <= i < flattened(after.scene).len() && (#[trigger] flattened(
                after.scene,
            )[i]).author_id == Some(h) {
            Some(h)
        } else {
            None
        })),
        before.cursor is None && before.interaction.hovered is None ==> after.interaction.hovered
            is None,
{
}

/// A scene that is drawn again shows what its source resolves to with the pointer
/// where the event left it: a move hovers what was under the pointer, leaving
/// frees everything, and pressing presses what is hovered. Only the left button
/// and clicks count: other buttons and other actions change nothing and tell
/// nothing. Letting go of the left button always draws again.
pub proof fn law_events_show_what_they_lead_to<C: Coord, E: ExpressionEngine>(
    engine: E,
    progs: spec_fn(Seq<char>) -> Result<CompiledExpr, ExprFault>,
    event: InputEvent<C>,
    before: SessionModel<C>,
    after: SessionModel<C>,
    redraw: bool,
    news: News,
)
    requires
        handled(engine, progs, event, before, after, redraw, news),
    ensures
        !redraw ==> news.clicked is None && news.warnings.len() == 0,
        match event {
            InputEvent::PointerMoved { x, y } => after.cursor == Some((x, y)) && (redraw
                ==> shown_with(
                engine,
                progs,
                InteractionModel {
                    hovered: hit_name(flattened(before.scene), x, y),
                    pressed: before.interaction.pressed,
                },
                before,
                after,
                news.warnings,
            )),
            InputEvent::PointerLeft => after.cursor is None && (redraw ==> shown_with(
                engine,
                progs,
                InteractionModel { hovered: None, pressed: None },
                before,
                after,
                news.warnings,
            )),
            InputEvent::ButtonPressed { primary } => {
                &&& !primary ==> !redraw && after == before
                &&& redraw ==> shown_with(
                    engine,
                    progs,
                    InteractionModel {
                        hovered: before.interaction.hovered,
                        pressed: before.interaction.hovered,
                    },
                    before,
                    after,
                    news.warnings,
                )
            },
            InputEvent::ButtonReleased { primary } => {
                &&& !primary ==> !redraw && after == before
                &&& primary ==> redraw && after.interaction.pressed is None
            },
            InputEvent::ActionRequested { click, target } => !click ==> !redraw && after == before,
        },
{
}

/// A session begins with the source and the state of the scene, with nothing
/// hovered or pressed and the pointer nowhere, and shows what the scene resolves
/// to; there is none where the scene resolves to nothing.
pub proof fn law_sessions_begin_with_the_scene<C: Coord, E: ExpressionEngine>(
    engine: E,
    scene: SceneModel<C>,
    r: Option<SessionModel<C>>,
    ws: Seq<WarningModel>,
)
    requires
        started(engine, scene, r, ws),
    ensures
        r matches Some(s) ==> {
            &&& s.source == scene.root
            &&& s.state == scene.state
            &&& s.cursor is None
            &&& s.interaction.hovered is None
            &&& s.interaction.pressed is None
            &&& resolves(
                engine,
                programs(engine, Map::empty()),
                scene_env(InteractionModel { hovered: None, pressed: None }, scene.state),
                scene.root,
                Some(s.scene),
                ws,
            )
        },
        r is None ==> resolves(
            engine,
            programs(engine, Map::empty()),
            scene_env(InteractionModel { hovered: None, pressed: None }, scene.state),
            scene.root,
            None,
            ws,
        ),
{
}

} // verus!
