use vstd::prelude::*;
use vstd::string::{StrSliceExecFns, StringExecFns};
use crate::cmp3::{Cmp, CanonOrd, cmp_then, lawful_cmp, lemma_lawful_ext};
use crate::seqcmp::{text_cmp, lemma_text_cmp_lawful, lemma_text_cmp_eq_is_eq};
use crate::strutil::{split_first, find_char_from, text_eq, text_compare, lemma_split_first_props,
    lemma_split_marker};
use crate::arn::{Arn, ArnData, arn_cmp, spec_parse_arn, spec_format_arn, lemma_arn_cmp_lawful,
    lemma_arn_cmp_eq_is_eq, arn_data_valid, lemma_parse_arn_valid, lemma_arn_format_parses,
    has_arn_prefix};

verus! {

/// The effect of a statement: `Allow` or `Deny`, ordered in that way.
#[derive(Debug, Clone, Copy, PartialEq, Eq, Structural)]
pub enum Effect {
    Allow,
    Deny,
}

/// What parsing an effect literal yields: only the two exact capitalized
/// words are accepted.
pub open spec fn spec_parse_effect(s: Seq<char>) -> Result<Effect, Seq<char>> {
    if s == "Allow"@ {
        Result::Ok(Effect::Allow)
    } else if s == "Deny"@ {
        Result::Ok(Effect::Deny)
    } else {
        Result::Err("illegal value `"@ + s + "`, expected `Allow` or `Deny`"@)
    }
}

/// The canonical text of an effect.
pub open spec fn spec_format_effect(e: Effect) -> Seq<char> {
    match e {
        Effect::Allow => "Allow"@,
        Effect::Deny => "Deny"@,
    }
}

pub open spec fn effect_cmp(a: Effect, b: Effect) -> Cmp {
    match (a, b) {
        (Effect::Allow, Effect::Deny) => Cmp::Lt,
        (Effect::Deny, Effect::Allow) => Cmp::Gt,
        _ => Cmp::Eq,
    }
}

pub proof fn lemma_effect_cmp_lawful()
    ensures
        lawful_cmp(|a: Effect, b: Effect| effect_cmp(a, b)),
{
}

impl Effect {
    /// Parse an effect literal, exactly as `spec_parse_effect` says.
    pub fn parse(s: &str) -> (r: Result<Effect, String>)
        ensures
            match r {
                Result::Ok(e) => spec_parse_effect(s@) == Result::<Effect, Seq<char>>::Ok(e),
                Result::Err(m) => spec_parse_effect(s@) == Result::<Effect, Seq<char>>::Err(m@),
            },
    {
        if text_eq(s, "Allow") {
            Result::Ok(Effect::Allow)
        } else if text_eq(s, "Deny") {
            Result::Ok(Effect::Deny)
        } else {
            let mut m = String::from_str("illegal value `");
            m.append(s);
            m.append("`, expected `Allow` or `Deny`");
            Result::Err(m)
        }
    }

    /// Render the canonical text of this effect.
    pub fn format(&self) -> (r: String)
        ensures
            r@ == spec_format_effect(*self),
    {
        match self {
            Effect::Allow => String::from_str("Allow"),
            Effect::Deny => String::from_str("Deny"),
        }
    }
}

impl CanonOrd for Effect {
    type M = Effect;

    open spec fn model(self) -> Effect {
        self
    }

    open spec fn mcmp(a: Effect, b: Effect) -> Cmp {
        effect_cmp(a, b)
    }

    proof fn lemma_mcmp_lawful() {
        lemma_effect_cmp_lawful();
        lemma_lawful_ext(
            |a: Effect, b: Effect| effect_cmp(a, b),
            |a: Effect, b: Effect| <Effect as CanonOrd>::mcmp(a, b),
        );
    }

    fn cmp_with(&self, other: &Self) -> (c: Cmp) {
        match (self, other) {
            (Effect::Allow, Effect::Deny) => Cmp::Lt,
            (Effect::Deny, Effect::Allow) => Cmp::Gt,
            _ => Cmp::Eq,
        }
    }
}

/// Mathematical model of an action matcher.
pub enum ActionData {
    Any,
    Name(Seq<char>, Seq<char>),
}

/// An action matcher: the wildcard `*`, or a `service:name` pair.
#[derive(Debug, PartialEq, Eq)]
pub enum Action {
    Any,
    Name(String, String),
}

/// What parsing an action yields: `*`, or a split at the first colon into
/// two non-empty parts; a text without a colon, or with an empty service
/// or name, is rejected with the exact message.
pub open spec fn spec_parse_action(s: Seq<char>) -> Result<ActionData, Seq<char>> {
    if s == "*"@ {
        Result::Ok(ActionData::Any)
    } else {
        match split_first(s, ':') {
            Option::Some((service, name)) => if service.len() == 0 || name.len() == 0 {
                Result::Err("illegal action name: `"@ + s + "`"@)
            } else {
                Result::Ok(ActionData::Name(service, name))
            },
            Option::None => Result::Err("illegal action name: `"@ + s + "`"@),
        }
    }
}

/// The canonical text of an action.
pub open spec fn spec_format_action(a: ActionData) -> Seq<char> {
    match a {
        ActionData::Any => "*"@,
        ActionData::Name(service, name) => service + seq![':'] + name,
    }
}

/// Canonical comparison of actions: the wildcard first, names by
/// (service, name).
pub open spec fn action_cmp(a: ActionData, b: ActionData) -> Cmp {
    match (a, b) {
        (ActionData::Any, ActionData::Any) => Cmp::Eq,
        (ActionData::Any, ActionData::Name(_, _)) => Cmp::Lt,
        (ActionData::Name(_, _), ActionData::Any) => Cmp::Gt,
        (ActionData::Name(s1, n1), ActionData::Name(s2, n2)) => cmp_then(
            text_cmp(s1, s2),
            text_cmp(n1, n2),
        ),
    }
}

pub proof fn lemma_action_cmp_lawful()
    ensures
        lawful_cmp(|a: ActionData, b: ActionData| action_cmp(a, b)),
{
    let tc = |x: Seq<char>, y: Seq<char>| text_cmp(x, y);
    lemma_text_cmp_lawful();
    let c = |a: ActionData, b: ActionData| action_cmp(a, b);
    assert forall|a: ActionData, b: ActionData| #[trigger] c(a, b) is Lt <==> c(b, a) is Gt by {
        if a is Name && b is Name {
            assert(tc(a->Name_0, b->Name_0) is Lt <==> tc(b->Name_0, a->Name_0) is Gt);
            assert(tc(a->Name_1, b->Name_1) is Lt <==> tc(b->Name_1, a->Name_1) is Gt);
            assert(tc(a->Name_0, b->Name_0) is Eq <==> tc(b->Name_0, a->Name_0) is Eq);
        }
    }
    assert forall|a: ActionData, b: ActionData, d: ActionData|
        #![trigger c(a, b), c(b, d)]
        c(a, b) is Lt && !(c(b, d) is Gt) implies c(a, d) is Lt by {
        lemma_action_cmp_step(a, b, d);
    }
    assert forall|a: ActionData, b: ActionData, d: ActionData|
        #![trigger c(a, b), c(b, d)]
        !(c(a, b) is Gt) && c(b, d) is Lt implies c(a, d) is Lt by {
        lemma_action_cmp_step(a, b, d);
    }
    assert forall|a: ActionData, b: ActionData, d: ActionData|
        #![trigger c(a, b), c(b, d)]
        c(a, b) is Eq && c(b, d) is Eq implies c(a, d) is Eq by {
        lemma_action_cmp_step(a, b, d);
    }
}

proof fn lemma_action_cmp_step(a: ActionData, b: ActionData, d: ActionData)
    ensures
        action_cmp(a, b) is Lt && !(action_cmp(b, d) is Gt) ==> action_cmp(a, d) is Lt,
        !(action_cmp(a, b) is Gt) && action_cmp(b, d) is Lt ==> action_cmp(a, d) is Lt,
        action_cmp(a, b) is Eq && action_cmp(b, d) is Eq ==> action_cmp(a, d) is Eq,
{
    let tc = |x: Seq<char>, y: Seq<char>| text_cmp(x, y);
    lemma_text_cmp_lawful();
    if a is Name && b is Name && d is Name {
        let (s1, n1) = (a->Name_0, a->Name_1);
        let (s2, n2) = (b->Name_0, b->Name_1);
        let (s3, n3) = (d->Name_0, d->Name_1);
        assert(tc(s1, s2) is Lt && !(tc(s2, s3) is Gt) ==> tc(s1, s3) is Lt);
        assert(!(tc(s1, s2) is Gt) && tc(s2, s3) is Lt ==> tc(s1, s3) is Lt);
        assert(tc(s1, s2) is Eq && tc(s2, s3) is Eq ==> tc(s1, s3) is Eq);
        assert(tc(s1, s2) is Lt <==> tc(s2, s1) is Gt);
        assert(tc(s2, s3) is Lt <==> tc(s3, s2) is Gt);
        assert(tc(n1, n2) is Lt && !(tc(n2, n3) is Gt) ==> tc(n1, n3) is Lt);
        assert(!(tc(n1, n2) is Gt) && tc(n2, n3) is Lt ==> tc(n1, n3) is Lt);
        assert(tc(n1, n2) is Eq && tc(n2, n3) is Eq ==> tc(n1, n3) is Eq);
    }
}

/// An action model with non-empty parts and a colon-free service: every
/// parsed action is of this shape, and only such a model formats
/// unambiguously.
pub open spec fn action_data_valid(a: ActionData) -> bool {
    match a {
        ActionData::Any => true,
        ActionData::Name(service, name) => service.len() > 0 && name.len() > 0 && forall|k: int|
            0 <= k < service.len() ==> service[k] != ':',
    }
}

/// Whatever the action parser accepts is a valid model.
pub proof fn lemma_parse_action_valid(s: Seq<char>)
    requires
        spec_parse_action(s) is Ok,
    ensures
        action_data_valid(spec_parse_action(s)->Ok_0),
{
    if s != "*"@ {
        lemma_split_first_props(s, ':');
    }
}

/// A valid action formats to a text that parses back to it.
pub proof fn lemma_action_format_parses(a: ActionData)
    requires
        action_data_valid(a),
    ensures
        spec_parse_action(spec_format_action(a)) == Result::<ActionData, Seq<char>>::Ok(a),
{
    reveal_strlit("*");
    match a {
        ActionData::Any => {},
        ActionData::Name(service, name) => {
            let t = spec_format_action(a);
            assert(t[service.len() as int] == ':');
            assert(t != "*"@) by {
                if t == "*"@ {
                    assert(t.len() == 1);
                    assert(service.len() == 0 && name.len() == 0);
                    assert(t[0] == ':');
                }
            }
            lemma_split_marker(service, ':', name);
        },
    }
}

/// Actions that compare `Eq` have equal models.
pub proof fn lemma_action_cmp_eq_is_eq(a: ActionData, b: ActionData)
    requires
        action_cmp(a, b) is Eq,
    ensures
        a == b,
{
    if a is Name && b is Name {
        lemma_text_cmp_eq_is_eq(a->Name_0, b->Name_0);
        lemma_text_cmp_eq_is_eq(a->Name_1, b->Name_1);
    }
}

impl Action {
    /// The model of this value.
    pub open spec fn model(self) -> ActionData {
        match self {
            Action::Any => ActionData::Any,
            Action::Name(service, name) => ActionData::Name(service@, name@),
        }
    }

    /// Parse an action from text, exactly as `spec_parse_action` says.
    pub fn parse(s: &str) -> (r: Result<Action, String>)
        ensures
            match r {
                Result::Ok(a) => spec_parse_action(s@) == Result::<ActionData, Seq<char>>::Ok(
                    a.model(),
                ),
                Result::Err(m) => spec_parse_action(s@) == Result::<ActionData, Seq<char>>::Err(
                    m@,
                ),
            },
    {
        if text_eq(s, "*") {
            return Result::Ok(Action::Any);
        }
        match find_char_from(s, 0, ':') {
            Option::Some(i) => {
                let n = s.unicode_len();
                proof {
                    assert(s@.skip(0) =~= s@);
                    assert(s@.subrange(0, i as int) =~= s@.take(i as int));
                    assert(s@.subrange(i + 1, n as int) =~= s@.skip(i + 1));
                }
                if i == 0 || i + 1 == n {
                    let mut m = String::from_str("illegal action name: `");
                    m.append(s);
                    m.append("`");
                    return Result::Err(m);
                }
                Result::Ok(
                    Action::Name(
                        s.substring_char(0, i).to_owned(),
                        s.substring_char(i + 1, n).to_owned(),
                    ),
                )
            },
            Option::None => {
                proof {
                    assert(s@.skip(0) =~= s@);
                }
                let mut m = String::from_str("illegal action name: `");
                m.append(s);
                m.append("`");
                Result::Err(m)
            },
        }
    }

    /// Render the canonical text of this action.
    pub fn format(&self) -> (r: String)
        ensures
            r@ == spec_format_action(self.model()),
    {
        match self {
            Action::Any => String::from_str("*"),
            Action::Name(service, name) => {
                let mut out = service.clone();
                out.append(":");
                out.append(name.as_str());
                proof {
                    reveal_strlit(":");
                    assert(out@ =~= spec_format_action(self.model()));
                }
                out
            },
        }
    }
}

impl CanonOrd for Action {
    type M = ActionData;

    open spec fn model(self) -> ActionData {
        self.model()
    }

    open spec fn mcmp(a: ActionData, b: ActionData) -> Cmp {
        action_cmp(a, b)
    }

    proof fn lemma_mcmp_lawful() {
        lemma_action_cmp_lawful();
        lemma_lawful_ext(
            |a: ActionData, b: ActionData| action_cmp(a, b),
            |a: ActionData, b: ActionData| <Action as CanonOrd>::mcmp(a, b),
        );
    }

    fn cmp_with(&self, other: &Self) -> (c: Cmp) {
        match (self, other) {
            (Action::Any, Action::Any) => Cmp::Eq,
            (Action::Any, Action::Name(_, _)) => Cmp::Lt,
            (Action::Name(_, _), Action::Any) => Cmp::Gt,
            (Action::Name(s1, n1), Action::Name(s2, n2)) => {
                let c = text_compare(s1.as_str(), s2.as_str());
                if c != Cmp::Eq {
                    c
                } else {
                    text_compare(n1.as_str(), n2.as_str())
                }
            },
        }
    }
}

/// Mathematical model of a resource matcher.
pub enum ResourceData {
    Any,
    Res(ArnData),
}

/// A resource matcher: the wildcard `*`, or an ARN.
#[derive(Debug, PartialEq, Eq)]
pub enum Resource {
    Any,
    Res(Arn),
}

/// What parsing a resource yields: `*`, or whatever the ARN grammar says.
pub open spec fn spec_parse_resource(s: Seq<char>) -> Result<ResourceData, Seq<char>> {
    if s == "*"@ {
        Result::Ok(ResourceData::Any)
    } else {
        match spec_parse_arn(s) {
            Result::Ok(a) => Result::Ok(ResourceData::Res(a)),
            Result::Err(m) => Result::Err(m),
        }
    }
}

/// The canonical text of a resource.
pub open spec fn spec_format_resource(r: ResourceData) -> Seq<char> {
    match r {
        ResourceData::Any => "*"@,
        ResourceData::Res(a) => spec_format_arn(a),
    }
}

/// Canonical comparison of resources: the wildcard first, then ARN order.
pub open spec fn resource_cmp(a: ResourceData, b: ResourceData) -> Cmp {
    match (a, b) {
        (ResourceData::Any, ResourceData::Any) => Cmp::Eq,
        (ResourceData::Any, ResourceData::Res(_)) => Cmp::Lt,
        (ResourceData::Res(_), ResourceData::Any) => Cmp::Gt,
        (ResourceData::Res(x), ResourceData::Res(y)) => arn_cmp(x, y),
    }
}

pub proof fn lemma_resource_cmp_lawful()
    ensures
        lawful_cmp(|a: ResourceData, b: ResourceData| resource_cmp(a, b)),
{
    let ac = |x: ArnData, y: ArnData| arn_cmp(x, y);
    lemma_arn_cmp_lawful();
    let c = |a: ResourceData, b: ResourceData| resource_cmp(a, b);
    assert forall|a: ResourceData, b: ResourceData| #[trigger] c(a, b) is Lt <==> c(b, a)
        is Gt by {
        if a is Res && b is Res {
            assert(ac(a->Res_0, b->Res_0) is Lt <==> ac(b->Res_0, a->Res_0) is Gt);
        }
    }
    assert forall|a: ResourceData, b: ResourceData, d: ResourceData|
        #![trigger c(a, b), c(b, d)]
        c(a, b) is Lt && !(c(b, d) is Gt) implies c(a, d) is Lt by {
        if a is Res && b is Res && d is Res {
            assert(ac(a->Res_0, b->Res_0) is Lt && !(ac(b->Res_0, d->Res_0) is Gt) ==> ac(
                a->Res_0,
                d->Res_0,
            ) is Lt);
        }
    }
    assert forall|a: ResourceData, b: ResourceData, d: ResourceData|
        #![trigger c(a, b), c(b, d)]
        !(c(a, b) is Gt) && c(b, d) is Lt implies c(a, d) is Lt by {
        if a is Res && b is Res && d is Res {
            assert(!(ac(a->Res_0, b->Res_0) is Gt) && ac(b->Res_0, d->Res_0) is Lt ==> ac(
                a->Res_0,
                d->Res_0,
            ) is Lt);
        }
    }
    assert forall|a: ResourceData, b: ResourceData, d: ResourceData|
        #![trigger c(a, b), c(b, d)]
        c(a, b) is Eq && c(b, d) is Eq implies c(a, d) is Eq by {
        if a is Res && b is Res && d is Res {
            assert(ac(a->Res_0, b->Res_0) is Eq && ac(b->Res_0, d->Res_0) is Eq ==> ac(
                a->Res_0,
                d->Res_0,
            ) is Eq);
        }
    }
}

/// A resource model is valid when its ARN, if any, is.
pub open spec fn resource_data_valid(r: ResourceData) -> bool {
    match r {
        ResourceData::Any => true,
        ResourceData::Res(a) => arn_data_valid(a),
    }
}

/// Whatever the resource parser accepts is a valid model.
pub proof fn lemma_parse_resource_valid(s: Seq<char>)
    requires
        spec_parse_resource(s) is Ok,
    ensures
        resource_data_valid(spec_parse_resource(s)->Ok_0),
{
    if s != "*"@ {
        lemma_parse_arn_valid(s);
    }
}

/// A valid resource formats to a text that parses back to it.
pub proof fn lemma_resource_format_parses(r: ResourceData)
    requires
        resource_data_valid(r),
    ensures
        spec_parse_resource(spec_format_resource(r)) == Result::<ResourceData, Seq<char>>::Ok(r),
{
    reveal_strlit("*");
    match r {
        ResourceData::Any => {},
        ResourceData::Res(a) => {
            let t = spec_format_arn(a);
            assert(has_arn_prefix(t));
            assert(t != "*"@) by {
                if t == "*"@ {
                    assert(t.len() == 1);
                }
            }
            lemma_arn_format_parses(a);
        },
    }
}

/// Resources that compare `Eq` have equal models.
pub proof fn lemma_resource_cmp_eq_is_eq(a: ResourceData, b: ResourceData)
    requires
        resource_cmp(a, b) is Eq,
    ensures
        a == b,
{
    if a is Res && b is Res {
        lemma_arn_cmp_eq_is_eq(a->Res_0, b->Res_0);
    }
}

impl Resource {
    /// The model of this value.
    pub open spec fn model(self) -> ResourceData {
        match self {
            Resource::Any => ResourceData::Any,
            Resource::Res(a) => ResourceData::Res(a.model()),
        }
    }

    /// Parse a resource from text, exactly as `spec_parse_resource` says.
    pub fn parse(s: &str) -> (r: Result<Resource, String>)
        ensures
            match r {
                Result::Ok(v) => spec_parse_resource(s@) == Result::<ResourceData, Seq<char>>::Ok(
                    v.model(),
                ),
                Result::Err(m) => spec_parse_resource(s@) == Result::<
                    ResourceData,
                    Seq<char>,
                >::Err(m@),
            },
    {
        if text_eq(s, "*") {
            return Result::Ok(Resource::Any);
        }
        match Arn::parse(s) {
            Result::Ok(a) => Result::Ok(Resource::Res(a)),
            Result::Err(m) => Result::Err(m),
        }
    }

    /// Render the canonical text of this resource.
    pub fn format(&self) -> (r: String)
        ensures
            r@ == spec_format_resource(self.model()),
    {
        match self {
            Resource::Any => String::from_str("*"),
            Resource::Res(a) => a.format(),
        }
    }
}

impl CanonOrd for Resource {
    type M = ResourceData;

    open spec fn model(self) -> ResourceData {
        self.model()
    }

    open spec fn mcmp(a: ResourceData, b: ResourceData) -> Cmp {
        resource_cmp(a, b)
    }

    proof fn lemma_mcmp_lawful() {
        lemma_resource_cmp_lawful();
        lemma_lawful_ext(
            |a: ResourceData, b: ResourceData| resource_cmp(a, b),
            |a: ResourceData, b: ResourceData| <Resource as CanonOrd>::mcmp(a, b),
        );
    }

    fn cmp_with(&self, other: &Self) -> (c: Cmp) {
        match (self, other) {
            (Resource::Any, Resource::Any) => Cmp::Eq,
            (Resource::Any, Resource::Res(_)) => Cmp::Lt,
            (Resource::Res(_), Resource::Any) => Cmp::Gt,
            (Resource::Res(x), Resource::Res(y)) => x.cmp_with(y),
        }
    }
}

/// Strings ordered canonically by their characters.
impl CanonOrd for String {
    type M = Seq<char>;

    open spec fn model(self) -> Seq<char> {
        self@
    }

    open spec fn mcmp(a: Seq<char>, b: Seq<char>) -> Cmp {
        text_cmp(a, b)
    }

    proof fn lemma_mcmp_lawful() {
        lemma_text_cmp_lawful();
        lemma_lawful_ext(
            |a: Seq<char>, b: Seq<char>| text_cmp(a, b),
            |a: Seq<char>, b: Seq<char>| <String as CanonOrd>::mcmp(a, b),
        );
    }

    fn cmp_with(&self, other: &Self) -> (c: Cmp) {
        text_compare(self.as_str(), other.as_str())
    }
}

} // verus!
