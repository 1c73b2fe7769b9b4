//! The application-module catalogue: which functional modules a user of a
//! given role may see. Role checking is the only logic here.

use vstd::prelude::*;
use crate::strutil;

verus! {

broadcast use {
    vstd::seq_lib::group_filter_ensures,
    Seq::lemma_filter_push,
};

/// One functional module of the application.
#[derive(Debug)]
pub struct AppModule {
    pub id: String,
    pub name: String,
    pub description: String,
    pub category: String,
    pub required_role: String,
    pub is_active: bool,
    pub icon: Option<String>,
    pub route: Option<String>,
}

/// The mathematical image of an [`AppModule`].
#[verifier::ext_equal]
pub struct AppModuleView {
    pub id: Seq<char>,
    pub name: Seq<char>,
    pub description: Seq<char>,
    pub category: Seq<char>,
    pub required_role: Seq<char>,
    pub is_active: bool,
    pub icon: Option<Seq<char>>,
    pub route: Option<Seq<char>>,
}

impl View for AppModule {
    type V = AppModuleView;

    open spec fn view(&self) -> AppModuleView {
        AppModuleView {
            id: self.id@,
            name: self.name@,
            description: self.description@,
            category: self.category@,
            required_role: self.required_role@,
            is_active: self.is_active,
            icon: match self.icon {
                Some(ref s) => Some(s@),
                None => None,
            },
            route: match self.route {
                Some(ref s) => Some(s@),
                None => None,
            },
        }
    }
}

impl AppModule {
    /// A field-for-field copy carrying the same view.
    pub fn duplicate(&self) -> (r: Self)
        ensures
            r@ == self@,
    {
        AppModule {
            id: self.id.clone(),
            name: self.name.clone(),
            description: self.description.clone(),
            category: self.category.clone(),
            required_role: self.required_role.clone(),
            is_active: self.is_active,
            icon: match &self.icon {
                Some(s) => Some(s.clone()),
                None => None,
            },
            route: match &self.route {
                Some(s) => Some(s.clone()),
                None => None,
            },
        }
    }
}

/// The modules one user may see, with a per-module permission map.
#[derive(Debug)]
pub struct UserModules {
    pub modules: Vec<AppModule>,
    /// Module identifier paired with whether the user may use it.
    pub user_permissions: Vec<(String, bool)>,
}

/// A service liveness report.
#[derive(Debug)]
pub struct HealthStatus {
    pub status: String,
    pub timestamp: String,
    pub version: String,
    pub uptime: u64,
}

/// The views of a sequence of modules.
pub open spec fn mview(s: Seq<AppModule>) -> Seq<AppModuleView> {
    s.map_values(|m: AppModule| m@)
}

/// Whether a user role grants a module's required role: administrators see
/// everything, other roles only their own tier. No default-allow.
pub open spec fn has_permission_spec(user_role: Seq<char>, required_role: Seq<char>) -> bool {
    ||| user_role == "ADMIN"@
    ||| (user_role == "USER"@ && required_role == "USER"@)
    ||| (user_role == "GUEST"@ && required_role == "GUEST"@)
}

/// Membership test for the modules a role may see: active, with the role
/// granted.
pub open spec fn visible_pred(user_role: Seq<char>) -> spec_fn(AppModuleView) -> bool {
    |m: AppModuleView| m.is_active && has_permission_spec(user_role, m.required_role)
}

/// The catalogue of application modules.
pub struct ModuleManager {
    modules: Vec<AppModule>,
}

/// The mathematical image of the catalogue.
#[verifier::ext_equal]
pub struct ModuleManagerView {
    pub modules: Seq<AppModuleView>,
}

impl View for ModuleManager {
    type V = ModuleManagerView;

    closed spec fn view(&self) -> ModuleManagerView {
        ModuleManagerView { modules: mview(self.modules@) }
    }
}

impl ModuleManager {
    /// Whether a user role grants a module's required role.
    pub fn has_permission(&self, user_role: &str, required_role: &str) -> (r: bool)
        ensures
            r == has_permission_spec(user_role@, required_role@),
    {
        if strutil::str_eq(user_role, "ADMIN") {
            true
        } else if strutil::str_eq(user_role, "USER") {
            strutil::str_eq(required_role, "USER")
        } else if strutil::str_eq(user_role, "GUEST") {
            strutil::str_eq(required_role, "GUEST")
        } else {
            false
        }
    }

    /// The built-in catalogue: chat, file transfer, project and friend
    /// management for every user, application management for administrators.
    pub fn new() -> (s: Self)
        ensures
            s@.modules.len() == 5,
            s@.modules[0].id == "ai_chat"@,
            s@.modules[1].id == "file_transfer"@,
            s@.modules[2].id == "project_manager"@,
            s@.modules[3].id == "friend_manager"@,
            s@.modules[4].id == "app_manager"@,
            forall|i: int| 0 <= i < 5 ==> (#[trigger] s@.modules[i].is_active),
            forall|i: int| 0 <= i < 4 ==> (#[trigger] s@.modules[i].required_role) == "USER"@,
            s@.modules[4].required_role == "ADMIN"@,
    {
        let mut modules: Vec<AppModule> = Vec::new();
        modules.push(
            AppModule {
                id: "ai_chat".to_owned(),
                name: "AI chat".to_owned(),
                description: "Converse with the assistant".to_owned(),
                category: "AI".to_owned(),
                required_role: "USER".to_owned(),
                is_active: true,
                icon: Some("chat".to_owned()),
                route: Some("/chat".to_owned()),
            },
        );
        modules.push(
            AppModule {
                id: "file_transfer".to_owned(),
                name: "File transfer".to_owned(),
                description: "Upload and download management".to_owned(),
                category: "Tools".to_owned(),
                required_role: "USER".to_owned(),
                is_active: true,
                icon: Some("file".to_owned()),
                route: Some("/files".to_owned()),
            },
        );
        modules.push(
            AppModule {
                id: "project_manager".to_owned(),
                name: "Projects".to_owned(),
                description: "Project and task management".to_owned(),
                category: "Management".to_owned(),
                required_role: "USER".to_owned(),
                is_active: true,
                icon: Some("project".to_owned()),
                route: Some("/projects".to_owned()),
            },
        );
        modules.push(
            AppModule {
                id: "friend_manager".to_owned(),
                name: "Friends".to_owned(),
                description: "Friends and social features".to_owned(),
                category: "Social".to_owned(),
                required_role: "USER".to_owned(),
                is_active: true,
                icon: Some("users".to_owned()),
                route: Some("/friends".to_owned()),
            },
        );
        modules.push(
            AppModule {
                id: "app_manager".to_owned(),
                name: "Applications".to_owned(),
                description: "Application management and monitoring".to_owned(),
                category: "System".to_owned(),
                required_role: "ADMIN".to_owned(),
                is_active: true,
                icon: Some("apps".to_owned()),
                route: Some("/apps".to_owned()),
            },
        );
        ModuleManager { modules }
    }

    /// The modules a role may see — active ones whose required role is
    /// granted — with a permission entry for each.
    pub fn get_user_modules(&self, user_role: &str) -> (r: UserModules)
        ensures
            mview(r.modules@) == self@.modules.filter(visible_pred(user_role@)),
            r.user_permissions@.len() == r.modules@.len(),
            forall|i: int|
                0 <= i < r.user_permissions@.len() ==> (#[trigger] r.user_permissions@[i].0)@
                    == mview(r.modules@)[i].id && r.user_permissions@[i].1,
    {
        let ghost p = visible_pred(user_role@);
        let mut modules: Vec<AppModule> = Vec::new();
        let n = self.modules.len();
        let mut k: usize = 0;
        proof {
            assert(mview(modules@) =~= self@.modules.take(0).filter(p));
        }
        while k < n
            invariant
                n == self@.modules.len(),
                k <= n,
                p == visible_pred(user_role@),
                mview(modules@) == self@.modules.take(k as int).filter(p),
            decreases n - k,
        {
            let ghost pre = mview(modules@);
            let visible = self.modules[k].is_active && self.has_permission(
                user_role,
                self.modules[k].required_role.as_str(),
            );
            if visible {
                let dup = self.modules[k].duplicate();
                modules.push(dup);
                proof {
                    assert(mview(modules@) =~= pre.push(self@.modules[k as int]));
                }
            }
            proof {
                assert(self@.modules.take(k as int + 1) =~= self@.modules.take(k as int).push(
                    self@.modules[k as int],
                ));
                assert(self@.modules[k as int] == self.modules@[k as int]@);
                assert(visible == p(self@.modules[k as int]));
            }
            k = k + 1;
        }
        proof {
            assert(self@.modules.take(n as int) =~= self@.modules);
        }
        let mut user_permissions: Vec<(String, bool)> = Vec::new();
        let m = modules.len();
        let mut j: usize = 0;
        while j < m
            invariant
                m == modules@.len(),
                j <= m,
                user_permissions@.len() == j,
                forall|i: int|
                    0 <= i < j ==> (#[trigger] user_permissions@[i].0)@ == mview(modules@)[i].id
                        && user_permissions@[i].1,
            decreases m - j,
        {
            user_permissions.push((modules[j].id.clone(), true));
            proof {
                assert(mview(modules@)[j as int] == modules@[j as int]@);
            }
            j = j + 1;
        }
        UserModules { modules, user_permissions }
    }
}

} // verus!
