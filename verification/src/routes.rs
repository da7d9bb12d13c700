//! The routes of the service and what each asks of a request.

use crate::bucket::RateLimitConfig;
use crate::gate::RouteClassification;
use vstd::prelude::*;

verus! {

/// The HTTP methods that the service answers.
#[derive(Clone, Copy, Debug, PartialEq, Eq, Structural)]
pub enum Method {
    Get,
    Post,
    Delete,
}

/// The endpoints of the service.
#[derive(Clone, Copy, Debug, PartialEq, Eq, Structural)]
pub enum Endpoint {
    Contact,
    ListSkills,
    ListProjects,
    Login,
    CreateSkill,
    DeleteSkill,
    CreateProject,
    DeleteProject,
}

impl Endpoint {
    /// Reading is public, and so are the contact form and the login.
    /// Creating and deleting records asks for a credential.
    pub open spec fn spec_classification(self) -> RouteClassification {
        match self {
            Endpoint::Contact => RouteClassification::Public,
            Endpoint::ListSkills => RouteClassification::Public,
            Endpoint::ListProjects => RouteClassification::Public,
            Endpoint::Login => RouteClassification::Public,
            Endpoint::CreateSkill => RouteClassification::Protected,
            Endpoint::DeleteSkill => RouteClassification::Protected,
            Endpoint::CreateProject => RouteClassification::Protected,
            Endpoint::DeleteProject => RouteClassification::Protected,
        }
    }

    /// The method that the endpoint answers.
    pub open spec fn spec_method(self) -> Method {
        match self {
            Endpoint::Contact => Method::Post,
            Endpoint::ListSkills => Method::Get,
            Endpoint::ListProjects => Method::Get,
            Endpoint::Login => Method::Post,
            Endpoint::CreateSkill => Method::Post,
            Endpoint::DeleteSkill => Method::Delete,
            Endpoint::CreateProject => Method::Post,
            Endpoint::DeleteProject => Method::Delete,
        }
    }

    /// The path that the endpoint is mounted at; `:id` stands for a record's
    /// identifier.
    pub open spec fn spec_path(self) -> Seq<char> {
        match self {
            Endpoint::Contact => "/api/contact"@,
            Endpoint::ListSkills => "/api/skills"@,
            Endpoint::ListProjects => "/api/projects"@,
            Endpoint::Login => "/api/login"@,
            Endpoint::CreateSkill => "/api/skills"@,
            Endpoint::DeleteSkill => "/api/skills/:id"@,
            Endpoint::CreateProject => "/api/projects"@,
            Endpoint::DeleteProject => "/api/projects/:id"@,
        }
    }

    /// Whether the endpoint asks for a credential.
    pub fn classification(self) -> (c: RouteClassification)
        ensures
            c == self.spec_classification(),
    {
        match self {
            Endpoint::Contact | Endpoint::ListSkills | Endpoint::ListProjects | Endpoint::Login => {
                RouteClassification::Public
            },
            Endpoint::CreateSkill
            | Endpoint::DeleteSkill
            | Endpoint::CreateProject
            | Endpoint::DeleteProject => RouteClassification::Protected,
        }
    }

    /// The method that the endpoint answers.
    pub fn method(self) -> (m: Method)
        ensures
            m == self.spec_method(),
    {
        match self {
            Endpoint::ListSkills | Endpoint::ListProjects => Method::Get,
            Endpoint::Contact | Endpoint::Login | Endpoint::CreateSkill | Endpoint::CreateProject => {
                Method::Post
            },
            Endpoint::DeleteSkill | Endpoint::DeleteProject => Method::Delete,
        }
    }

    /// The path that the endpoint is mounted at.
    pub fn path(self) -> (p: &'static str)
        ensures
            p@ == self.spec_path(),
    {
        match self {
            Endpoint::Contact => "/api/contact",
            Endpoint::ListSkills => "/api/skills",
            Endpoint::ListProjects => "/api/projects",
            Endpoint::Login => "/api/login",
            Endpoint::CreateSkill => "/api/skills",
            Endpoint::DeleteSkill => "/api/skills/:id",
            Endpoint::CreateProject => "/api/projects",
            Endpoint::DeleteProject => "/api/projects/:id",
        }
    }

    /// Every endpoint once, the public ones first.
    pub fn all() -> (list: Vec<Endpoint>)
        ensures
            list@ == seq![
                Endpoint::Contact,
                Endpoint::ListSkills,
                Endpoint::ListProjects,
                Endpoint::Login,
                Endpoint::CreateSkill,
                Endpoint::DeleteSkill,
                Endpoint::CreateProject,
                Endpoint::DeleteProject,
            ],
            forall|e: Endpoint| list@.contains(e),
            list@.no_duplicates(),
    {
        let mut list: Vec<Endpoint> = Vec::new();
        list.push(Endpoint::Contact);
        list.push(Endpoint::ListSkills);
        list.push(Endpoint::ListProjects);
        list.push(Endpoint::Login);
        list.push(Endpoint::CreateSkill);
        list.push(Endpoint::DeleteSkill);
        list.push(Endpoint::CreateProject);
        list.push(Endpoint::DeleteProject);
        proof {
            assert forall|e: Endpoint| list@.contains(e) by {
                match e {
                    Endpoint::Contact => assert(list@[0] == e),
                    Endpoint::ListSkills => assert(list@[1] == e),
                    Endpoint::ListProjects => assert(list@[2] == e),
                    Endpoint::Login => assert(list@[3] == e),
                    Endpoint::CreateSkill => assert(list@[4] == e),
                    Endpoint::DeleteSkill => assert(list@[5] == e),
                    Endpoint::CreateProject => assert(list@[6] == e),
                    Endpoint::DeleteProject => assert(list@[7] == e),
                }
            }
        }
        list
    }
}

/// No two endpoints answer the same method at the same path, so each can be
/// mounted.
pub proof fn law_endpoints_do_not_collide(a: Endpoint, b: Endpoint)
    requires
        a != b,
    ensures
        a.spec_method() != b.spec_method() || a.spec_path() != b.spec_path(),
{
    reveal_strlit("/api/contact");
    reveal_strlit("/api/skills");
    reveal_strlit("/api/projects");
    reveal_strlit("/api/login");
    reveal_strlit("/api/skills/:id");
    reveal_strlit("/api/projects/:id");
    assert("/api/contact"@.len() == 12);
    assert("/api/skills"@.len() == 11);
    assert("/api/projects"@.len() == 13);
    assert("/api/login"@.len() == 10);
    assert("/api/skills/:id"@.len() == 15);
    assert("/api/projects/:id"@.len() == 17);
}

/// The service's throttling policy: a burst of two requests, and one more
/// every five seconds.
pub fn standard_policy() -> (cfg: RateLimitConfig)
    ensures
        cfg.wf(),
        cfg.spec_burst_size() == 2,
        cfg.spec_refill_tokens() == 1,
        cfg.spec_refill_period_ms() == 5000,
{
    match RateLimitConfig::new(2, 1, 5000) {
        Some(cfg) => cfg,
        None => unreached(),
    }
}

} // verus!
