//! What the engine answers: the description it gives of itself, which
//! messages it acts on, and which evaluation requests it takes on or refuses.

use vstd::prelude::*;

use crate::board::{Board, MAX_INPUT_SIZE};
use crate::notation::{push_signed, signed_decimal};

verus! {

/// The protocol version this engine speaks.
pub const PROTOCOL_VERSION: &'static str = "0.1";

/// PureTD evaluates a position with one forward pass and no lookahead, which
/// is what gnubg calls 0-ply and XG calls 1-ply. BEP declares the XG
/// convention, so this is "1ply".
pub const LEVEL_1PLY: &'static str = "1ply";

/// The network output mode of a prob5 model.
pub const PROB5_OUTPUT_MODE: i32 = 2;

/// The evaluation methods of the protocol.
#[derive(PartialEq, Eq, Structural, Clone, Copy, Debug)]
pub enum Method {
    EvaluatePosition,
    EvaluateCube,
    EvaluateMoves,
    AnalyzeMove,
}

/// The kinds of level a protocol engine can offer.
#[derive(PartialEq, Eq, Structural, Clone, Copy, Debug)]
pub enum LevelKind {
    Ply,
}

/// One evaluation level, as the engine describes it.
pub struct LevelDescription {
    pub id: String,
    pub kind: LevelKind,
    pub display_name: Option<String>,
    pub ply_depth: Option<u32>,
    pub methods: Option<Vec<Method>>,
    pub configurable: bool,
    pub supports_progress: bool,
    pub supports_cancel: bool,
}

/// What the engine says of itself when asked to describe itself.
pub struct Description {
    pub protocol_version: String,
    pub family: String,
    pub display_name: String,
    pub version: String,
    pub build: String,
    pub max_parallel: u32,
    pub ply_counting: String,
    pub equity: String,
    pub levels: Vec<LevelDescription>,
}

/// The methods the one level answers. `EvaluateCube` is deliberately absent:
/// PureTD learns doubling as actions rather than producing no-double / take /
/// drop equities, and one scalar cannot be taken apart into three.
pub open spec fn answered_methods() -> Seq<Method> {
    seq![Method::EvaluatePosition, Method::EvaluateMoves, Method::AnalyzeMove]
}

/// The level answers position evaluations, move evaluations and move
/// analyses, and never a cube question.
pub proof fn lemma_cube_never_answered()
    ensures
        !answered_methods().contains(Method::EvaluateCube),
        answered_methods().contains(Method::EvaluatePosition),
        answered_methods().contains(Method::EvaluateMoves),
        answered_methods().contains(Method::AnalyzeMove),
{
    assert(answered_methods()[0] == Method::EvaluatePosition);
    assert(answered_methods()[1] == Method::EvaluateMoves);
    assert(answered_methods()[2] == Method::AnalyzeMove);
}

/// The engine's description of itself; `version` is the engine's own version.
pub fn describe(version: &str) -> (d: Description)
    ensures
        d.protocol_version@ == PROTOCOL_VERSION@,
        d.family@ == "puretd"@,
        d.display_name@ == "PureTD"@,
        d.version@ == version@,
        d.build@ == "puretd-engine "@ + version@,
        // One model, one scratch buffer, no locking: concurrency is replicas.
        d.max_parallel == 1,
        d.ply_counting@ == "xg"@,
        d.equity@ == "contract"@,
        d.levels.len() == 1,
        d.levels[0].id@ == LEVEL_1PLY@,
        d.levels[0].kind == LevelKind::Ply,
        (d.levels[0].display_name matches Some(name) && name@ == "PureTD"@),
        d.levels[0].ply_depth == Some(1u32),
        (d.levels[0].methods matches Some(methods) && methods@ == answered_methods()),
        !d.levels[0].configurable,
        !d.levels[0].supports_progress,
        !d.levels[0].supports_cancel,
{
    let mut build = "puretd-engine ".to_owned();
    build.append(version);
    let mut methods: Vec<Method> = Vec::new();
    methods.push(Method::EvaluatePosition);
    methods.push(Method::EvaluateMoves);
    methods.push(Method::AnalyzeMove);
    assert(methods@ =~= answered_methods());
    let level = LevelDescription {
        id: LEVEL_1PLY.to_owned(),
        kind: LevelKind::Ply,
        display_name: Some("PureTD".to_owned()),
        ply_depth: Some(1),
        methods: Some(methods),
        configurable: false,
        supports_progress: false,
        supports_cancel: false,
    };
    let mut levels: Vec<LevelDescription> = Vec::new();
    levels.push(level);
    Description {
        protocol_version: PROTOCOL_VERSION.to_owned(),
        family: "puretd".to_owned(),
        display_name: "PureTD".to_owned(),
        version: version.to_owned(),
        build,
        max_parallel: 1,
        ply_counting: "xg".to_owned(),
        equity: "contract".to_owned(),
        levels,
    }
}

/// The answer to every cube question.
pub const CUBE_REFUSAL: &'static str =
    "this engine does not answer cube decisions; describe lists the methods this level supports";

/// Cube decisions are not answered: this level owns no cube model, and
/// inventing no-double / take / drop equities would be confident advice the
/// engine never gave.
pub fn evaluate_cube() -> (answer: Result<(), String>)
    ensures
        answer matches Err(message) && message@ == CUBE_REFUSAL@,
{
    Err(CUBE_REFUSAL.to_owned())
}

/// The kinds of message the engine can receive.
#[derive(PartialEq, Eq, Structural, Clone, Copy, Debug)]
pub enum MessageKind {
    Describe,
    Shutdown,
    Cancel,
    Evaluation(Method),
    Unknown,
}

/// What the engine does with a message.
#[derive(PartialEq, Eq, Structural, Clone, Copy, Debug)]
pub enum Action {
    /// Answer with the engine's description.
    ReplyDescription,
    /// Answer `null` if the message has an id, then exit.
    Shutdown { reply: bool },
    /// Evaluate: read the parameters and answer.
    Evaluate(Method),
    /// An evaluation sent as a notification: say so on stderr, answer nothing.
    IgnoreNotification,
    /// Answer that the method is unknown.
    ReplyMethodNotFound,
    /// Nothing to do.
    Nothing,
}

/// What the engine does with a message of `kind`, which carries an id when
/// `has_id`. Only requests (messages with an id) are answered; a cancel is
/// never answered, since an evaluation is a single forward pass with no window
/// in which a cancel could still mean anything.
pub fn next_action(kind: MessageKind, has_id: bool) -> (action: Action)
    ensures
        action == match kind {
            MessageKind::Describe => if has_id {
                Action::ReplyDescription
            } else {
                Action::Nothing
            },
            MessageKind::Shutdown => Action::Shutdown { reply: has_id },
            MessageKind::Cancel => Action::Nothing,
            MessageKind::Evaluation(method) => if has_id {
                Action::Evaluate(method)
            } else {
                Action::IgnoreNotification
            },
            MessageKind::Unknown => if has_id {
                Action::ReplyMethodNotFound
            } else {
                Action::Nothing
            },
        },
{
    match kind {
        MessageKind::Describe => if has_id {
            Action::ReplyDescription
        } else {
            Action::Nothing
        },
        MessageKind::Shutdown => Action::Shutdown { reply: has_id },
        MessageKind::Cancel => Action::Nothing,
        MessageKind::Evaluation(method) => if has_id {
            Action::Evaluate(method)
        } else {
            Action::IgnoreNotification
        },
        MessageKind::Unknown => if has_id {
            Action::ReplyMethodNotFound
        } else {
            Action::Nothing
        },
    }
}

/// An evaluation the engine has taken on.
#[derive(Clone, Copy)]
pub enum Job {
    Position { board: Board },
    Cube { board: Board },
    /// The dice in ascending order.
    Moves { board: Board, die1: i32, die2: i32 },
    /// The dice in ascending order.
    Analyze { board: Board, die1: i32, die2: i32 },
}

/// Why an evaluation request is refused before any evaluation.
pub enum Refusal {
    /// A position or match id did not decode; the decoder's message.
    InvalidId(String),
    /// The requested level is not one this engine has.
    UnknownLevel,
    /// A move evaluation without both dice.
    MissingDice,
}

/// The job a valid request is, dice put in ascending order.
pub open spec fn job_of(method: Method, board: Board, die1: i32, die2: i32) -> Job {
    let (low, high) = if die1 <= die2 { (die1, die2) } else { (die2, die1) };
    match method {
        Method::EvaluatePosition => Job::Position { board },
        Method::EvaluateCube => Job::Cube { board },
        Method::EvaluateMoves => Job::Moves { board, die1: low, die2: high },
        Method::AnalyzeMove => Job::Analyze { board, die1: low, die2: high },
    }
}

/// Decides an evaluation request from its method, the outcome of decoding its
/// position id and its match id, its level and its dice. Checked in this
/// order: the position id, the match id, the level, then (for the move
/// methods) that both dice are given.
pub fn plan_evaluation(
    method: Method,
    position: Result<Board, String>,
    match_context: Result<(), String>,
    level: &str,
    die1: Option<i32>,
    die2: Option<i32>,
) -> (plan: Result<Job, Refusal>)
    ensures
        match position {
            Err(message) => (plan matches Err(Refusal::InvalidId(m)) && m@ == message@),
            Ok(board) => match match_context {
                Err(message) => (plan matches Err(Refusal::InvalidId(m)) && m@ == message@),
                Ok(_) => if level@ != LEVEL_1PLY@ {
                    plan matches Err(Refusal::UnknownLevel)
                } else if (method == Method::EvaluateMoves || method == Method::AnalyzeMove)
                    && (die1 is None || die2 is None) {
                    plan matches Err(Refusal::MissingDice)
                } else {
                    (plan matches Ok(job) && job == job_of(
                        method,
                        board,
                        if die1 is Some { die1->0 } else { 0 },
                        if die2 is Some { die2->0 } else { 0 },
                    ))
                },
            },
        },
        // the kind of job is the method's, whatever the dice
        plan is Ok ==> (method == Method::EvaluatePosition <==> plan matches Ok(Job::Position { .. })),
        plan is Ok ==> (method == Method::EvaluateCube <==> plan matches Ok(Job::Cube { .. })),
        plan is Ok ==> (method == Method::EvaluateMoves <==> plan matches Ok(Job::Moves { .. })),
        plan is Ok ==> (method == Method::AnalyzeMove <==> plan matches Ok(Job::Analyze { .. })),
        // the job's board is the decoded one
        plan matches Ok(Job::Position { board: b }) ==> position == Ok::<Board, String>(b),
        plan matches Ok(Job::Cube { board: b }) ==> position == Ok::<Board, String>(b),
        plan matches Ok(Job::Moves { board: b, .. }) ==> position == Ok::<Board, String>(b),
        plan matches Ok(Job::Analyze { board: b, .. }) ==> position == Ok::<Board, String>(b),
        // the job's dice are the given ones, low die first
        plan matches Ok(Job::Moves { die1: low, die2: high, .. }) ==> low <= high && ((die1
            == Some(low) && die2 == Some(high)) || (die1 == Some(high) && die2 == Some(low))),
        plan matches Ok(Job::Analyze { die1: low, die2: high, .. }) ==> low <= high && ((die1
            == Some(low) && die2 == Some(high)) || (die1 == Some(high) && die2 == Some(low))),
{
    let board = match position {
        Ok(board) => board,
        Err(message) => {
            return Err(Refusal::InvalidId(message));
        },
    };
    match match_context {
        Ok(_) => {},
        Err(message) => {
            return Err(Refusal::InvalidId(message));
        },
    }
    let wanted = LEVEL_1PLY.to_owned();
    let given = level.to_owned();
    if !(given == wanted) {
        return Err(Refusal::UnknownLevel);
    }
    match method {
        Method::EvaluatePosition => Ok(Job::Position { board }),
        Method::EvaluateCube => Ok(Job::Cube { board }),
        Method::EvaluateMoves | Method::AnalyzeMove => {
            let (d1, d2) = match (die1, die2) {
                (Some(d1), Some(d2)) => (d1, d2),
                _ => {
                    return Err(Refusal::MissingDice);
                },
            };
            let (low, high) = if d1 <= d2 {
                (d1, d2)
            } else {
                (d2, d1)
            };
            if method == Method::EvaluateMoves {
                Ok(Job::Moves { board, die1: low, die2: high })
            } else {
                Ok(Job::Analyze { board, die1: low, die2: high })
            }
        },
    }
}

/// The order in which the dice are given does not matter: a request and the
/// same request with its dice swapped are the same job.
pub proof fn lemma_dice_order_irrelevant(method: Method, board: Board, die1: i32, die2: i32)
    ensures
        job_of(method, board, die1, die2) == job_of(method, board, die2, die1),
{
}

/// The job's kind is the method's, for every roll, doubles included; the move
/// jobs carry the two dice given, the lower first.
pub proof fn lemma_job_follows_method(method: Method, board: Board, die1: i32, die2: i32)
    ensures
        job_of(method, board, die1, die2) matches Job::Position { board: b } ==> method
            == Method::EvaluatePosition && b == board,
        job_of(method, board, die1, die2) matches Job::Cube { board: b } ==> method
            == Method::EvaluateCube && b == board,
        job_of(method, board, die1, die2) matches Job::Moves { board: b, die1: low, die2: high }
            ==> method == Method::EvaluateMoves && b == board && low <= high && ((low == die1
            && high == die2) || (low == die2 && high == die1)),
        job_of(method, board, die1, die2) matches Job::Analyze { board: b, die1: low, die2: high }
            ==> method == Method::AnalyzeMove && b == board && low <= high && ((low == die1
            && high == die2) || (low == die2 && high == die1)),
{
}

/// Both dice show 1 to 6.
pub open spec fn dice_valid(die1: i32, die2: i32) -> bool {
    1 <= die1 <= 6 && 1 <= die2 <= 6
}

/// A roll is valid exactly when each die shows 1 to 6, whichever die is
/// named first.
pub proof fn lemma_dice_validity(die1: i32, die2: i32)
    ensures
        dice_valid(die1, die2) <==> (die1 >= 1 && die1 <= 6) && (die2 >= 1 && die2 <= 6),
        dice_valid(die1, die2) == dice_valid(die2, die1),
{
}

/// The refusal of dice that are not both 1..6.
pub open spec fn dice_refusal(die1: i32, die2: i32) -> Seq<char> {
    "dice "@ + signed_decimal(die1 as int) + "-"@ + signed_decimal(die2 as int)
        + " are not both 1..6"@
}

/// Checks a roll before any move is generated: both dice must be 1..6.
pub fn check_dice(die1: i32, die2: i32) -> (checked: Result<(), String>)
    ensures
        checked is Ok <==> dice_valid(die1, die2),
        checked is Ok <==> (die1 >= 1 && die1 <= 6) && (die2 >= 1 && die2 <= 6),
        checked matches Err(message) ==> message@ == dice_refusal(die1, die2),
{
    if 1 <= die1 && die1 <= 6 && 1 <= die2 && die2 <= 6 {
        Ok(())
    } else {
        let mut message = "dice ".to_owned();
        push_signed(&mut message, die1 as i64);
        message.append("-");
        push_signed(&mut message, die2 as i64);
        message.append(" are not both 1..6");
        Err(message)
    }
}

/// The number of legal plays the move generator reported: a negative count is
/// its overflow signal.
pub fn generated_count(count: i32) -> (checked: Result<usize, String>)
    ensures
        count >= 0 ==> checked == Ok::<usize, String>(count as usize),
        count < 0 ==> (checked matches Err(message) && message@ == "move generation overflowed"@),
{
    if count < 0 {
        Err("move generation overflowed".to_owned())
    } else {
        Ok(count as usize)
    }
}

/// Why a weights file is not used.
#[derive(PartialEq, Eq, Structural, Clone, Copy, Debug)]
pub enum ModelError {
    /// The loader did not recognise the file as a network.
    NotAModel,
    /// The network is not a prob5 model: a single equity scalar cannot be
    /// taken apart into the win / gammon / backgammon probabilities the
    /// protocol reports.
    NotProb5 { output_mode: i32 },
    /// The network wants more inputs than the buffers hold.
    TooManyInputs { input_size: i32 },
}

/// Decides whether a loaded network can be used, from the loader's return code
/// and the network's output mode and input size; on success, the input size.
/// Checked in this order: the return code, the output mode, the input size.
pub fn check_model(rc: i32, output_mode: i32, input_size: i32) -> (checked: Result<
    usize,
    ModelError,
>)
    ensures
        rc != 0 ==> checked == Err::<usize, ModelError>(ModelError::NotAModel),
        rc == 0 && output_mode != PROB5_OUTPUT_MODE ==> checked == Err::<usize, ModelError>(
            ModelError::NotProb5 { output_mode },
        ),
        rc == 0 && output_mode == PROB5_OUTPUT_MODE && !(0 <= input_size <= MAX_INPUT_SIZE)
            ==> checked == Err::<usize, ModelError>(ModelError::TooManyInputs { input_size }),
        rc == 0 && output_mode == PROB5_OUTPUT_MODE && 0 <= input_size <= MAX_INPUT_SIZE
            ==> checked == Ok::<usize, ModelError>(input_size as usize),
{
    if rc != 0 {
        return Err(ModelError::NotAModel);
    }
    if output_mode != PROB5_OUTPUT_MODE {
        return Err(ModelError::NotProb5 { output_mode });
    }
    // A negative size, taken as an unsigned one, is larger than any buffer.
    if input_size < 0 || input_size as usize > MAX_INPUT_SIZE {
        return Err(ModelError::TooManyInputs { input_size });
    }
    Ok(input_size as usize)
}

} // verus!
