use vstd::prelude::*;

verus! {

/// Quality tier of a signal variant or of a power pole.
#[derive(Clone, Copy, Debug, PartialEq, Eq, Structural)]
pub enum Quality {
    Normal,
    Uncommon,
    Rare,
    Epic,
    Legendary,
    Unknown,
}

/// A named value of the catalog: its kind, its name and its quality tier.
#[derive(Debug)]
pub struct Signal {
    pub type_: String,
    pub name: String,
    pub quality: Option<Quality>,
}

impl View for Signal {
    type V = (Seq<char>, Seq<char>, Option<Quality>);

    open spec fn view(&self) -> Self::V {
        (self.type_@, self.name@, self.quality)
    }
}

/// The virtual signals that the counter and the unpacking stage use.
#[derive(Clone, Copy, Debug, PartialEq, Eq, Structural)]
pub enum VirtualSignal {
    /// `signal-T`: the tick counter.
    SignalT,
    /// `signal-S`: the tick within the current frame group.
    SignalS,
    /// `signal-F`: the bit shift of the current frame.
    SignalF,
    /// `signal-each`: every signal on the input.
    SignalEach,
}

/// A reference to a signal: one of the fixed virtual signals, or the entry at
/// an index of the graph's signal table.
#[derive(Clone, Copy, Debug, PartialEq, Eq, Structural)]
pub enum SignalRef {
    Virtual(VirtualSignal),
    Catalog(usize),
}

/// The icon of the blueprint.
#[derive(Debug)]
pub struct Icon {
    pub signal: Signal,
    pub index: u32,
}

/// A connection: source entity, source connector, target entity, target connector.
pub type Wire = (u32, u32, u32, u32);

/// The kind of a placed entity.
#[derive(Clone, Copy, Debug, PartialEq, Eq, Structural)]
pub enum EntityKind {
    ConstantCombinator,
    DeciderCombinator,
    ArithmeticCombinator,
    Substation,
    SmallLamp,
}

/// A position on the map, in half tiles: the coordinates are
/// `half_x / 2` and `half_y / 2`.
#[derive(Clone, Copy, Debug, PartialEq, Eq, Structural)]
pub struct Position {
    pub half_x: i64,
    pub half_y: i64,
}

/// A note shown to the player on an entity.
#[derive(Clone, Copy, Debug, PartialEq, Eq, Structural)]
pub enum Note {
    /// Explains the tick counter.
    TickCounter,
    /// Explains the bit-shift stage.
    ShiftAmount,
}

/// A comparison of a condition or a filter.
#[derive(Clone, Copy, Debug, PartialEq, Eq, Structural)]
pub enum Comparator {
    Equal,
    GreaterEqual,
    Less,
}

/// How a condition joins the previous one.
#[derive(Clone, Copy, Debug, PartialEq, Eq, Structural)]
pub enum CompareType {
    And,
}

/// The operation of an arithmetic entity.
#[derive(Clone, Copy, Debug, PartialEq, Eq, Structural)]
pub enum Operation {
    Mod,
    Mul,
    Div,
    Sub,
    ShiftRight,
    And,
}

/// One slot of a constant emitter.
#[derive(Clone, Copy, Debug)]
pub struct Filter {
    pub index: u32,
    pub signal: SignalRef,
    pub quality: Option<Quality>,
    pub comparator: Option<Comparator>,
    pub count: Option<u32>,
}

/// A group of slots of a constant emitter.
#[derive(Debug)]
pub struct Section {
    pub index: u32,
    pub filters: Vec<Filter>,
}

/// All the slot groups of a constant emitter.
#[derive(Debug)]
pub struct Sections {
    pub sections: Vec<Section>,
}

/// One comparison of a decider.
#[derive(Clone, Copy, Debug)]
pub struct Condition {
    pub first_signal: SignalRef,
    pub constant: i32,
    pub comparator: Comparator,
    pub compare_type: Option<CompareType>,
}

/// One output of a decider: the triggering count, or a constant.
#[derive(Clone, Copy, Debug)]
pub struct CombinatorOutput {
    pub copy_count_from_input: bool,
    pub constant: Option<i32>,
    pub signal: SignalRef,
}

/// The conditions and outputs of a decider.
#[derive(Debug)]
pub struct DeciderConditions {
    pub conditions: Vec<Condition>,
    pub outputs: Vec<CombinatorOutput>,
}

/// The operation of an arithmetic entity, with its operands.
#[derive(Clone, Copy, Debug)]
pub struct ArithmeticConditions {
    pub first_signal: SignalRef,
    pub second_signal: Option<SignalRef>,
    pub second_constant: Option<i32>,
    pub operation: Operation,
    pub output_signal: SignalRef,
}

/// What an entity does.
#[derive(Debug)]
pub enum ControlBehavior {
    Constant { sections: Sections },
    Decider { decider_conditions: DeciderConditions },
    Arithmetic { arithmetic_conditions: ArithmeticConditions },
    ColorLamp { use_colors: bool, color_mode: i8, rgb_signal: SignalRef },
    GrayLamp {
        use_colors: bool,
        color_mode: i8,
        red_signal: SignalRef,
        green_signal: SignalRef,
        blue_signal: SignalRef,
    },
}

/// A placed element of the graph.
#[derive(Debug)]
pub struct Entity {
    pub entity_number: u32,
    pub name: EntityKind,
    pub position: Position,
    pub direction: Option<u32>,
    pub control_behavior: Option<ControlBehavior>,
    pub player_description: Option<Note>,
    pub quality: Option<Quality>,
    pub always_on: Option<bool>,
}

/// The whole graph with its fixed descriptors.
#[derive(Debug)]
pub struct BlueprintInner {
    pub icons: Vec<Icon>,
    pub entities: Vec<Entity>,
    pub wires: Vec<Wire>,
    /// The table that `SignalRef::Catalog` indexes.
    pub signals: Vec<Signal>,
    pub item: &'static str,
    pub version: u64,
}

/// The top-level object of the exchange format.
#[derive(Debug)]
pub struct Blueprint {
    pub blueprint: BlueprintInner,
}

/// The terminal failures of a run.
#[derive(Clone, Copy, Debug, PartialEq, Eq, Structural)]
pub enum BlueprintError {
    UnsupportedInputFormat,
    DecodeFailure,
    InsufficientSignalBudget,
    EmptyInput,
    SerializationFailure,
    CompressionFailure,
}

/// A section of a constant emitter, seen as values.
pub struct SectionView {
    pub index: u32,
    pub filters: Seq<Filter>,
}

/// What an entity does, seen as values.
pub enum BehaviorView {
    Constant { sections: Seq<SectionView> },
    Decider { conditions: Seq<Condition>, outputs: Seq<CombinatorOutput> },
    Arithmetic { arithmetic_conditions: ArithmeticConditions },
    ColorLamp { use_colors: bool, color_mode: i8, rgb_signal: SignalRef },
    GrayLamp {
        use_colors: bool,
        color_mode: i8,
        red_signal: SignalRef,
        green_signal: SignalRef,
        blue_signal: SignalRef,
    },
}

/// An entity, seen as values.
pub struct EntityView {
    pub number: u32,
    pub kind: EntityKind,
    pub position: Position,
    pub direction: Option<u32>,
    pub behavior: Option<BehaviorView>,
    pub note: Option<Note>,
    pub quality: Option<Quality>,
    pub always_on: Option<bool>,
}

impl View for Section {
    type V = SectionView;

    open spec fn view(&self) -> SectionView {
        SectionView { index: self.index, filters: self.filters@ }
    }
}

impl View for ControlBehavior {
    type V = BehaviorView;

    open spec fn view(&self) -> BehaviorView {
        match self {
            ControlBehavior::Constant { sections } => BehaviorView::Constant {
                sections: sections.sections@.map_values(|s: Section| s@),
            },
            ControlBehavior::Decider { decider_conditions } => BehaviorView::Decider {
                conditions: decider_conditions.conditions@,
                outputs: decider_conditions.outputs@,
            },
            ControlBehavior::Arithmetic { arithmetic_conditions } => BehaviorView::Arithmetic {
                arithmetic_conditions: *arithmetic_conditions,
            },
            ControlBehavior::ColorLamp { use_colors, color_mode, rgb_signal } => {
                BehaviorView::ColorLamp {
                    use_colors: *use_colors,
                    color_mode: *color_mode,
                    rgb_signal: *rgb_signal,
                }
            },
            ControlBehavior::GrayLamp {
                use_colors,
                color_mode,
                red_signal,
                green_signal,
                blue_signal,
            } => BehaviorView::GrayLamp {
                use_colors: *use_colors,
                color_mode: *color_mode,
                red_signal: *red_signal,
                green_signal: *green_signal,
                blue_signal: *blue_signal,
            },
        }
    }
}

/// The view of an optional behavior.
pub open spec fn behavior_view(b: Option<ControlBehavior>) -> Option<BehaviorView> {
    match b {
        Some(c) => Some(c@),
        None => None,
    }
}

impl View for Entity {
    type V = EntityView;

    open spec fn view(&self) -> EntityView {
        EntityView {
            number: self.entity_number,
            kind: self.name,
            position: self.position,
            direction: self.direction,
            behavior: behavior_view(self.control_behavior),
            note: self.player_description,
            quality: self.quality,
            always_on: self.always_on,
        }
    }
}

/// The views of a sequence of entities.
pub open spec fn entities_view(s: Seq<Entity>) -> Seq<EntityView> {
    s.map_values(|e: Entity| e@)
}

/// An entity with nothing but its number, kind and position.
pub open spec fn bare_entity(number: u32, kind: EntityKind, position: Position) -> EntityView {
    EntityView {
        number,
        kind,
        position,
        direction: None,
        behavior: None,
        note: None,
        quality: None,
        always_on: None,
    }
}

impl Entity {
    /// An entity with no optional field set.
    pub fn new(entity_number: u32, name: EntityKind, position: Position) -> (r: Entity)
        ensures
            r@ == bare_entity(entity_number, name, position),
    {
        Entity {
            entity_number,
            name,
            position,
            direction: None,
            control_behavior: None,
            player_description: None,
            quality: None,
            always_on: None,
        }
    }

    /// The entity turned to `direction`.
    pub fn with_direction(self, direction: u32) -> (r: Entity)
        ensures
            r@ == (EntityView { direction: Some(direction), ..self@ }),
    {
        let mut e = self;
        e.direction = Some(direction);
        e
    }

    /// The entity with `behavior`.
    pub fn with_control_behavior(self, behavior: ControlBehavior) -> (r: Entity)
        ensures
            r@ == (EntityView { behavior: Some(behavior@), ..self@ }),
    {
        let mut e = self;
        e.control_behavior = Some(behavior);
        e
    }

    /// The entity with a note for the player.
    pub fn with_description(self, desc: Note) -> (r: Entity)
        ensures
            r@ == (EntityView { note: Some(desc), ..self@ }),
    {
        let mut e = self;
        e.player_description = Some(desc);
        e
    }

    /// The entity with its always-on flag set to `always_on`.
    pub fn with_always_on(self, always_on: bool) -> (r: Entity)
        ensures
            r@ == (EntityView { always_on: Some(always_on), ..self@ }),
    {
        let mut e = self;
        e.always_on = Some(always_on);
        e
    }
}

} // verus!
