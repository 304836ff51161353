//! The Maven project object model: the field-for-field shape of a POM
//! document. These are plain data carriers; the XML reading and writing
//! around them stays outside the verified library.
use vstd::prelude::*;

verus! {

#[derive(Debug, PartialEq, Eq)]
pub struct Model {
    pub model_version: Option<String>,

    pub parent: Option<Parent>,

    pub group_id: Option<String>,

    pub artifact_id: Option<String>,

    pub version: Option<String>,
    pub packaging: Option<String>,
    pub name: Option<String>,
    pub description: Option<String>,
    pub url: Option<String>,

    pub inception_year: Option<String>,

    pub organization: Option<Organization>,
    pub licenses: Option<Licenses>,
    pub developers: Option<Developers>,
    pub contributors: Option<Contributors>,

    pub mailing_lists: Option<MailingLists>,

    pub prerequisites: Option<Prerequisites>,
    pub modules: Option<Modules>,
    pub scm: Option<Scm>,

    pub issue_management: Option<IssueManagement>,

    pub ci_management: Option<CiManagement>,

    pub distribution_management: Option<DistributionManagement>,

    pub properties: Option<Properties>,

    pub dependency_management: Option<DependencyManagement>,

    pub dependencies: Option<Dependencies>,
    pub repositories: Option<Repositories>,

    pub plugin_repositories: Option<PluginRepositories>,

    pub build: Option<Build>,
    pub reporting: Option<Reporting>,
    pub reports: Option<Reports>,
    pub profiles: Option<Profiles>,

    pub schema_location: Option<String>,

    pub child_project_url_inherit_append_path: Option<String>,
}

#[derive(Debug, PartialEq, Eq)]
pub struct Parent {
    pub group_id: Option<String>,

    pub artifact_id: Option<String>,

    pub version: Option<String>,

    pub relative_path: Option<String>,
}

#[derive(Debug, PartialEq, Eq)]
pub struct Organization {
    pub name: Option<String>,
    pub url: Option<String>,
}

#[derive(Debug, PartialEq, Eq)]
pub struct Licenses {
    pub licenses: Vec<License>,
}

#[derive(Debug, PartialEq, Eq)]
pub struct License {
    pub name: Option<String>,
    pub url: Option<String>,
    pub distribution: Option<String>,
    pub comments: Option<String>,
}

#[derive(Debug, PartialEq, Eq)]
pub struct Developers {
    pub developers: Vec<Developer>,
}

#[derive(Debug, PartialEq, Eq)]
pub struct Developer {
    pub id: Option<String>,
    pub name: Option<String>,
    pub email: Option<String>,
    pub url: Option<String>,
    pub organization: Option<String>,

    pub organization_url: Option<String>,

    pub roles: Option<Roles>,
    pub timezone: Option<String>,
    pub properties: Option<Properties>,
}

#[derive(Debug, PartialEq, Eq)]
pub struct Roles {
    pub roles: Vec<String>,
}

#[derive(Debug, PartialEq, Eq)]
pub struct Contributors {
    pub contributors: Vec<Contributor>,
}

#[derive(Debug, PartialEq, Eq)]
pub struct Contributor {
    pub name: Option<String>,
    pub email: Option<String>,
    pub url: Option<String>,
    pub organization: Option<String>,

    pub organization_url: Option<String>,

    pub roles: Option<Roles>,
    pub timezone: Option<String>,
    pub properties: Option<Properties>,
}

#[derive(Debug, PartialEq, Eq)]
pub struct MailingLists {
    pub mailing_lists: Vec<MailingList>,
}

#[derive(Debug, PartialEq, Eq)]
pub struct MailingList {
    pub name: Option<String>,
    pub subscribe: Option<String>,
    pub unsubscribe: Option<String>,
    pub post: Option<String>,
    pub archive: Option<String>,

    pub other_archives: Option<OtherArchives>,
}

#[derive(Debug, PartialEq, Eq)]
pub struct OtherArchives {
    pub other_archives: Vec<String>,
}

#[derive(Debug, PartialEq, Eq)]
pub struct Prerequisites {
    pub maven: Option<String>,
}

#[derive(Debug, PartialEq, Eq)]
pub struct Modules {
    pub modules: Vec<String>,
}

#[derive(Debug, PartialEq, Eq)]
pub struct Scm {
    pub connection: Option<String>,

    pub developer_connection: Option<String>,

    pub tag: Option<String>,
    pub url: Option<String>,

    pub child_scm_connection_inherit_append_path: Option<String>,

    pub child_scm_developer_connection_inherit_append_path: Option<String>,

    pub child_scm_url_inherit_append_path: Option<String>,
}

#[derive(Debug, PartialEq, Eq)]
pub struct IssueManagement {
    pub system: Option<String>,
    pub url: Option<String>,
}

#[derive(Debug, PartialEq, Eq)]
pub struct CiManagement {
    pub system: Option<String>,
    pub url: Option<String>,
    pub notifiers: Option<Notifiers>,
}

#[derive(Debug, PartialEq, Eq)]
pub struct Notifiers {
    pub notifiers: Vec<Notifier>,
}

#[derive(Debug, PartialEq, Eq)]
pub struct Notifier {
    pub notifier_type: Option<String>,

    pub address: Option<String>,

    pub send_on_error: Option<bool>,

    pub send_on_failure: Option<bool>,

    pub send_on_success: Option<bool>,

    pub send_on_warning: Option<bool>,

    pub configuration: Option<Configuration>,
}

#[derive(Debug, PartialEq, Eq)]
pub struct DistributionManagement {
    pub repository: Option<DeploymentRepository>,

    pub snapshot_repository: Option<DeploymentRepository>,

    pub site: Option<Site>,
    pub relocation: Option<Relocation>,

    pub download_url: Option<String>,

    pub status: Option<String>,
}

#[derive(Debug, PartialEq, Eq)]
pub struct DeploymentRepository {
    pub unique_version: Option<bool>,

    pub releases: Option<RepositoryPolicy>,
    pub snapshots: Option<RepositoryPolicy>,
    pub id: Option<String>,
    pub name: Option<String>,
    pub url: Option<String>,
    pub layout: Option<String>,
}

#[derive(Debug, PartialEq, Eq)]
pub struct RepositoryPolicy {
    pub enabled: Option<String>,

    pub update_policy: Option<String>,

    pub checksum_policy: Option<String>,
}

#[derive(Debug, PartialEq, Eq)]
pub struct Site {
    pub id: Option<String>,
    pub name: Option<String>,
    pub url: Option<String>,

    pub child_site_url_inherit_append_path: Option<String>,
}

#[derive(Debug, PartialEq, Eq)]
pub struct Relocation {
    pub group_id: Option<String>,

    pub artifact_id: Option<String>,

    pub version: Option<String>,
    pub message: Option<String>,
}

#[derive(Debug, PartialEq, Eq)]
pub struct DependencyManagement {
    pub dependencies: Option<Dependencies>,
}

#[derive(Debug, PartialEq, Eq)]
pub struct Dependencies {
    pub dependencies: Vec<Dependency>,
}

#[derive(Debug, PartialEq, Eq)]
pub struct Dependency {
    pub group_id: Option<String>,

    pub artifact_id: Option<String>,

    pub version: Option<String>,
    pub classifier: Option<String>,

    pub dependency_type: Option<String>,

    pub scope: Option<String>,

    pub system_path: Option<String>,

    pub optional: Option<String>,
    pub exclusions: Option<Exclusions>,
}

#[derive(Debug, PartialEq, Eq)]
pub struct Exclusions {
    pub exclusions: Vec<Exclusion>,
}

#[derive(Debug, PartialEq, Eq)]
pub struct Exclusion {
    pub group_id: Option<String>,

    pub artifact_id: Option<String>,
}

#[derive(Debug, PartialEq, Eq)]
pub struct Repositories {
    pub repositories: Vec<Repository>,
}

#[derive(Debug, PartialEq, Eq)]
pub struct PluginRepositories {
    pub plugin_repositories: Vec<Repository>,
}

#[derive(Debug, PartialEq, Eq)]
pub struct Repository {
    pub releases: Option<RepositoryPolicy>,
    pub snapshots: Option<RepositoryPolicy>,
    pub id: Option<String>,
    pub name: Option<String>,
    pub url: Option<String>,
    pub layout: Option<String>,
}

#[derive(Debug, PartialEq, Eq)]
pub struct Build {
    pub default_goal: Option<String>,

    pub directory: Option<String>,

    pub final_name: Option<String>,

    pub filters: Option<Filters>,
    pub resources: Option<Resources>,

    pub test_resources: Option<TestResources>,

    pub plugin_management: Option<PluginManagement>,

    pub plugins: Option<Plugins>,

    pub source_directory: Option<String>,

    pub script_source_directory: Option<String>,

    pub test_source_directory: Option<String>,

    pub output_directory: Option<String>,

    pub test_output_directory: Option<String>,

    pub extensions: Option<Extensions>,
}

#[derive(Debug, PartialEq, Eq)]
pub struct Filters {
    pub filters: Vec<String>,
}

#[derive(Debug, PartialEq, Eq)]
pub struct Resources {
    pub resources: Vec<Resource>,
}

#[derive(Debug, PartialEq, Eq)]
pub struct TestResources {
    pub test_resources: Vec<Resource>,
}

#[derive(Debug, PartialEq, Eq)]
pub struct Resource {
    pub target_path: Option<String>,

    pub filtering: Option<String>,
    pub directory: Option<String>,

    pub includes: Vec<Includes>,

    pub excludes: Vec<Excludes>,
}

#[derive(Debug, PartialEq, Eq)]
pub struct Includes {
    pub includes: Vec<String>,
}

#[derive(Debug, PartialEq, Eq)]
pub struct Excludes {
    pub excludes: Vec<String>,
}

#[derive(Debug, PartialEq, Eq)]
pub struct PluginManagement {
    pub plugins: Option<Plugins>,
}

#[derive(Debug, PartialEq, Eq)]
pub struct Plugins {
    pub plugins: Vec<Plugin>,
}

#[derive(Debug, PartialEq, Eq)]
pub struct Plugin {
    pub group_id: Option<String>,

    pub artifact_id: Option<String>,

    pub version: Option<String>,
    pub extensions: Option<String>,
    pub inherited: Option<String>,
    pub configuration: Option<Configuration>,
    pub dependencies: Option<Dependencies>,
    pub executions: Option<PluginExecutions>,
}

#[derive(Debug, PartialEq, Eq)]
pub struct PluginExecutions {
    pub executions: Vec<PluginExecution>,
}

#[derive(Debug, PartialEq, Eq)]
pub struct PluginExecution {
    pub id: Option<String>,
    pub goals: Option<Goals>,
    pub phase: Option<String>,
    pub inherited: Option<String>,
    pub configuration: Option<Configuration>,
}

#[derive(Debug, PartialEq, Eq)]
pub struct Goals {
    pub goals: Vec<String>,
}

#[derive(Debug, PartialEq, Eq)]
pub struct Extensions {
    pub extensions: Vec<Extension>,
}

#[derive(Debug, PartialEq, Eq)]
pub struct Extension {
    pub group_id: Option<String>,

    pub artifact_id: Option<String>,

    pub version: Option<String>,
}

#[derive(Debug, PartialEq, Eq)]
pub struct Reporting {
    pub output_directory: Option<String>,

    pub exclude_defaults: Option<String>,

    pub plugins: Option<ReportPlugins>,
}

#[derive(Debug, PartialEq, Eq)]
pub struct ReportPlugins {
    pub plugins: Vec<ReportPlugin>,
}

#[derive(Debug, PartialEq, Eq)]
pub struct ReportPlugin {
    pub group_id: Option<String>,

    pub artifact_id: Option<String>,

    pub version: Option<String>,
    pub inherited: Option<String>,
    pub configuration: Option<Configuration>,

    pub report_sets: Option<ReportSets>,
}

#[derive(Debug, PartialEq, Eq)]
pub struct ReportSets {
    pub report_sets: Vec<ReportSet>,
}

#[derive(Debug, PartialEq, Eq)]
pub struct ReportSet {
    pub id: Option<String>,
    pub reports: Option<Reports>,
    pub inherited: Option<String>,
    pub configuration: Option<Configuration>,
}

#[derive(Debug, PartialEq, Eq)]
pub struct Reports {
    pub reports: Vec<String>,
}

#[derive(Debug, PartialEq, Eq)]
pub struct Profiles {
    pub profiles: Vec<Profile>,
}

#[derive(Debug, PartialEq, Eq)]
pub struct Profile {
    pub id: Option<String>,
    pub activation: Option<Activation>,
    pub modules: Option<Modules>,

    pub distribution_management: Option<DistributionManagement>,

    pub properties: Option<Properties>,

    pub dependency_management: Option<DependencyManagement>,

    pub dependencies: Option<Dependencies>,
    pub repositories: Option<Repositories>,

    pub plugin_repositories: Option<Repositories>,

    pub build: Option<BuildBase>,
    pub reporting: Option<Reporting>,
}

#[derive(Debug, PartialEq, Eq)]
pub struct Activation {
    pub active_by_default: Option<bool>,

    pub jdk: Option<String>,
    pub os: Option<ActivationOS>,
    pub property: Option<ActivationProperty>,
    pub file: Option<ActivationFile>,
}

#[derive(Debug, PartialEq, Eq)]
pub struct ActivationOS {
    pub name: Option<String>,
    pub family: Option<String>,
    pub arch: Option<String>,
    pub version: Option<String>,
}

#[derive(Debug, PartialEq, Eq)]
pub struct ActivationProperty {
    pub name: Option<String>,
    pub value: Option<String>,
}

#[derive(Debug, PartialEq, Eq)]
pub struct ActivationFile {
    pub exists: Option<String>,
    pub missing: Option<String>,
}

#[derive(Debug, PartialEq, Eq)]
pub struct BuildBase {
    pub default_goal: Option<String>,

    pub resources: Option<Resources>,

    pub test_resources: Option<TestResources>,

    pub directory: Option<String>,

    pub final_name: Option<String>,

    pub filters: Option<Filters>,

    pub plugin_management: Option<PluginManagement>,

    pub plugins: Option<Plugins>,
}

/// A generic XML element value: leaf text, or nested named elements in
/// their original order.
#[derive(Debug, PartialEq, Eq)]
pub enum PomValue {
    Leaf(String),
    Tree(Vec<(String, PomValue)>),
}

/// A free-form property table: element names to values, in original order.
#[derive(Debug, PartialEq, Eq)]
pub struct Properties(pub Vec<(String, PomValue)>);

/// A free-form plugin configuration: element names to values, in original
/// order.
#[derive(Debug, PartialEq, Eq)]
pub struct Configuration(pub Vec<(String, PomValue)>);

} // verus!
