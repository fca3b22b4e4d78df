//! Why something is refused.

use vstd::prelude::*;
use vstd::string::*;

verus! {

/// The kinds of refusals.
#[derive(Clone, Copy, Debug, PartialEq, Eq, Structural)]
pub enum FaultKind {
    ZipContainer,
    Container,
    BadSource,
    NotRelative,
    NoSuchFile,
    NoFileChosen,
    RepeatedFile,
    StillReferenced,
    FileId,
    FileName,
    FilePath,
    PanelWidth,
    Version,
    RuleId,
    RuleTerms,
    RuleSources,
    RulePattern,
    RuleOptions,
    Timezone,
    TimeFormat,
    TimePattern,
    SystemOptions,
    SystemStorage,
    SystemPatternMissing,
    SystemId,
    SystemFields,
    FieldName,
    FieldCapture,
    FieldOptions,
    SystemPattern,
    SystemJoin,
    EventId,
    EventType,
    EventTerms,
    EventStrength,
    EventFile,
    EventPattern,
    JudgementId,
    JudgementOutput,
    JudgementConfidence,
    Thresholds,
    Style,
    Batch,
    BrokenPattern,
    RuleJson,
    NotJson,
    ExtractKind,
    IllegalPath,
    UnsafeName,
    LinkInOutput,
    ZipArchive,
    ArchiveContainer,
    ZipContent,
    NotArchive,
    EntryType,
    EmptyArchive,
    NoFiles,
    PackageChanged,
    PackageChangedLate,
    Cancelled,
    TaskChanged,
    FileChanged,
    NotCompleted,
    WrongOutput,
    LinkOnPath,
    CleanupPackage,
    OutputNotDirectory,
    OutputChanged,
    System,
    AddressFormat,
    AddressScheme,
    RemotePathMissing,
    RemotePathInvalid,
    RemotePathElsewhere,
    NoLogFile,
    NothingSelected,
    ChooseFile,
    NameMissing,
    BasicsMissing,
    DirectoryAccess,
    DirectoryMissing,
    NoServer,
    ServerStatus,
    DownloadStatus,
    UploadStatus,
    RemoteText,
    NoCredential,
    PasswordSave,
    ConfigSave,
    ConfigNotRestored,
    StartupRead,
    StartupSave,
    StartupNotRestored,
    SettingsSave,
    SettingsNotRestored,
}

/// A refusal: its kind, what it is about, a detail, and the error that an
/// expression caused.
#[derive(Clone, Debug)]
pub struct Fault {
    pub kind: FaultKind,
    pub subject: String,
    pub detail: String,
    pub cause: String,
}

/// What a `Fault` holds.
#[verifier::ext_equal]
pub ghost struct FaultView {
    pub kind: FaultKind,
    pub subject: Seq<char>,
    pub detail: Seq<char>,
    pub cause: Seq<char>,
}

impl View for Fault {
    type V = FaultView;

    open spec fn view(&self) -> FaultView {
        FaultView {
            kind: self.kind,
            subject: self.subject@,
            detail: self.detail@,
            cause: self.cause@,
        }
    }
}

/// A refusal without a detail or a cause.
pub open spec fn refusal(kind: FaultKind, subject: Seq<char>) -> FaultView {
    FaultView { kind, subject, detail: Seq::empty(), cause: Seq::empty() }
}

/// A refusal with a detail.
pub open spec fn detailed(kind: FaultKind, subject: Seq<char>, detail: Seq<char>) -> FaultView {
    FaultView { kind, subject, detail, cause: Seq::empty() }
}

/// A refusal that an error caused.
pub open spec fn caused(
    kind: FaultKind,
    subject: Seq<char>,
    detail: Seq<char>,
    cause: Seq<char>,
) -> FaultView {
    FaultView { kind, subject, detail, cause }
}

/// The first of two refusals.
pub open spec fn first_of(a: Option<FaultView>, b: Option<FaultView>) -> Option<FaultView> {
    if a is Some {
        a
    } else {
        b
    }
}

/// The text before the subject.
pub open spec fn head_text(kind: FaultKind) -> Seq<char> {
    match kind {
        FaultKind::ZipContainer => "日志文件「"@,
        FaultKind::Container => "日志文件「"@,
        FaultKind::BadSource => "日志来源不能为空，匹配方式需为前缀、路径片段或精确路径"@,
        FaultKind::NotRelative => "日志文件路径须为归档内的相对路径，使用 / 分隔："@,
        FaultKind::NoSuchFile => "日志文件引用不存在："@,
        FaultKind::NoFileChosen => "规则「"@,
        FaultKind::RepeatedFile => "规则「"@,
        FaultKind::StillReferenced => "日志文件仍被以下规则引用，请先调整或删除规则："@,
        FaultKind::FileId => "日志文件标识重复或为空："@,
        FaultKind::FileName => "日志文件名称重复或为空："@,
        FaultKind::FilePath => "日志文件路径重复："@,
        FaultKind::PanelWidth => "日志文件栏宽度须为 180～360"@,
        FaultKind::Version => "不支持的规则格式版本："@,
        FaultKind::RuleId => "规则标识重复："@,
        FaultKind::RuleTerms => "规则「"@,
        FaultKind::RuleSources => "规则「"@,
        FaultKind::RulePattern => "规则「"@,
        FaultKind::RuleOptions => "规则「"@,
        FaultKind::Timezone => "规则「"@,
        FaultKind::TimeFormat => "规则「"@,
        FaultKind::TimePattern => "规则「"@,
        FaultKind::SystemOptions => "「"@,
        FaultKind::SystemStorage => "「"@,
        FaultKind::SystemPatternMissing => "「"@,
        FaultKind::SystemId => "信息组标识重复："@,
        FaultKind::SystemFields => "「"@,
        FaultKind::FieldName => "「"@,
        FaultKind::FieldCapture => "「"@,
        FaultKind::FieldOptions => "「"@,
        FaultKind::SystemPattern => "「"@,
        FaultKind::SystemJoin => "「"@,
        FaultKind::EventId => "时间线事实事件标识重复或为空："@,
        FaultKind::EventType => "时间线事实事件「"@,
        FaultKind::EventTerms => "时间线事实事件「"@,
        FaultKind::EventStrength => "时间线事实事件「"@,
        FaultKind::EventFile => "时间线事实事件「"@,
        FaultKind::EventPattern => "时间线事实事件「"@,
        FaultKind::JudgementId => "时间线判定规则标识重复或为空："@,
        FaultKind::JudgementOutput => "时间线判定规则「"@,
        FaultKind::JudgementConfidence => "时间线判定规则「"@,
        FaultKind::Thresholds => "时间线匹配窗口和日志断档阈值必须大于 0 秒"@,
        FaultKind::Style => "报告样式：颜色需为 #RRGGBB，字号需为 10 至 24"@,
        FaultKind::Batch => "报告样式：每批显示行数需为 10 至 5000"@,
        FaultKind::BrokenPattern => ""@,
        FaultKind::RuleJson => "规则 JSON 无效，请使用包含日志文件目录的新版规则"@,
        FaultKind::NotJson => "JSON 内容无法解析"@,
        FaultKind::ExtractKind => "不支持的提取方式："@,
        FaultKind::IllegalPath => "压缩包包含非法路径"@,
        FaultKind::UnsafeName => "压缩包包含不安全文件名："@,
        FaultKind::LinkInOutput => "输出路径包含符号链接"@,
        FaultKind::ZipArchive => "暂不支持 ZIP 诊断包，请使用 TGZ 格式"@,
        FaultKind::ArchiveContainer => "归档容器不受支持："@,
        FaultKind::ZipContent => "归档容器标记为诊断包，但实际文件是 ZIP；请检查日志文件配置"@,
        FaultKind::NotArchive => "诊断包格式不受支持，请使用 TGZ 格式"@,
        FaultKind::EntryType => "压缩包包含链接或不支持的条目类型"@,
        FaultKind::EmptyArchive => "诊断包为空"@,
        FaultKind::NoFiles => "诊断包中没有文件"@,
        FaultKind::PackageChanged => "分析期间诊断包发生变化，请等待下载完成后重试"@,
        FaultKind::PackageChangedLate => "生成期间诊断包发生变化，未替换报告"@,
        FaultKind::Cancelled => "任务已取消，已生成文件保留在输出目录"@,
        FaultKind::TaskChanged => "任务状态已变化，未删除"@,
        FaultKind::FileChanged => "文件已变化，请重新检查后再删除"@,
        FaultKind::NotCompleted => "任务尚未成功完成"@,
        FaultKind::WrongOutput => "输出目录与诊断包不对应"@,
        FaultKind::LinkOnPath => "路径包含链接："@,
        FaultKind::CleanupPackage => "诊断包已发生变化，已跳过"@,
        FaultKind::OutputNotDirectory => "输出路径不是目录"@,
        FaultKind::OutputChanged => "输出目录已发生变化，已跳过"@,
        FaultKind::System => ""@,
        FaultKind::AddressFormat => "WebDAV 地址格式无效"@,
        FaultKind::AddressScheme => "WebDAV 地址必须使用 HTTP 或 HTTPS，并包含服务器地址"@,
        FaultKind::RemotePathMissing => "远端文件路径不能为空"@,
        FaultKind::RemotePathInvalid => "WebDAV 远端路径无效"@,
        FaultKind::RemotePathElsewhere => "远端文件路径必须位于当前 WebDAV 服务器"@,
        FaultKind::NoLogFile => "请先添加日志文件，再添加规则"@,
        FaultKind::NothingSelected => "请先选择规则"@,
        FaultKind::ChooseFile => "请选择日志文件"@,
        FaultKind::NameMissing => "请填写规则名称"@,
        FaultKind::BasicsMissing => "请填写规则名称和日志来源。"@,
        FaultKind::DirectoryAccess => "请选择可访问的监控目录"@,
        FaultKind::DirectoryMissing => "请先选择监控目录"@,
        FaultKind::NoServer => "请先配置 WebDAV"@,
        FaultKind::ServerStatus => "WebDAV 服务器返回错误状态："@,
        FaultKind::DownloadStatus => "下载规则失败，服务器状态："@,
        FaultKind::UploadStatus => "上传规则失败，服务器状态："@,
        FaultKind::RemoteText => "远端规则必须为 UTF-8 文本"@,
        FaultKind::NoCredential => "未找到 WebDAV 凭据，请重新填写密码"@,
        FaultKind::PasswordSave => "密码保存失败"@,
        FaultKind::ConfigSave => "配置文件保存失败，已撤销本次凭据修改"@,
        FaultKind::ConfigNotRestored => "配置文件保存失败："@,
        FaultKind::StartupRead => "无法读取 Windows 启动项"@,
        FaultKind::StartupSave => "无法保存 Windows 启动项"@,
        FaultKind::StartupNotRestored => "无法保存 Windows 启动项: "@,
        FaultKind::SettingsSave => "保存设置失败，启动项已恢复："@,
        FaultKind::SettingsNotRestored => "保存设置失败："@,
    }
}

/// The text between the subject and the detail.
pub open spec fn middle_text(kind: FaultKind) -> Seq<char> {
    match kind {
        FaultKind::ZipContainer => "」暂不支持 ZIP 容器"@,
        FaultKind::Container => "」的归档容器不受支持："@,
        FaultKind::NoFileChosen => "」：请选择已维护的日志文件"@,
        FaultKind::RepeatedFile => "」重复引用日志文件："@,
        FaultKind::Version => "，请使用新版规则文件"@,
        FaultKind::RuleTerms => "」：请填写名称和至少一个非空关键词"@,
        FaultKind::RuleSources => "」：请选择日志范围"@,
        FaultKind::RulePattern => "」正则无效"@,
        FaultKind::RuleOptions => "」包含不支持的匹配或展示选项"@,
        FaultKind::Timezone => "」时区格式应为 +08:00 或 -05:00"@,
        FaultKind::TimeFormat => "」时间格式无效"@,
        FaultKind::TimePattern => "」时间表达式无效"@,
        FaultKind::SystemOptions => "」提取或展示方式不支持"@,
        FaultKind::SystemStorage => "」存储展示需要 JSON 提取及对应的磁盘数组路径"@,
        FaultKind::SystemPatternMissing => "」请填写提取表达式"@,
        FaultKind::SystemFields => "」需要至少一个有名称和来源的字段"@,
        FaultKind::FieldName => "」字段名称重复："@,
        FaultKind::FieldCapture => " / "@,
        FaultKind::FieldOptions => " / "@,
        FaultKind::SystemPattern => "」提取表达式无效"@,
        FaultKind::SystemJoin => "」关联配置不完整"@,
        FaultKind::EventType => "」类型不支持："@,
        FaultKind::EventTerms => "」至少需要一个关键词"@,
        FaultKind::EventStrength => "」证据等级不支持："@,
        FaultKind::EventFile => "」引用的日志不存在："@,
        FaultKind::EventPattern => "」正则无效"@,
        FaultKind::JudgementOutput => "」必须填写输出结论"@,
        FaultKind::JudgementConfidence => "」置信度不支持："@,
        FaultKind::ConfigNotRestored => "；原凭据恢复失败："@,
        FaultKind::StartupNotRestored => "；恢复原启动项也失败："@,
        FaultKind::SettingsNotRestored => "；恢复原启动项也失败："@,
        _ => ""@,
    }
}

/// The text behind the detail.
pub open spec fn tail_text(kind: FaultKind) -> Seq<char> {
    match kind {
        FaultKind::FieldCapture => "」字段提取表达式无效"@,
        FaultKind::FieldOptions => "」格式或展示方式无效"@,
        FaultKind::ConfigNotRestored => "，请重新保存密码"@,
        _ => ""@,
    }
}

impl FaultView {
    /// What a user is told.
    pub open spec fn message(self) -> Seq<char> {
        head_text(self.kind) + self.subject + middle_text(self.kind) + self.detail + tail_text(
            self.kind,
        )
    }
}

impl FaultKind {
    fn head(self) -> (r: &'static str)
        ensures
            r@ == head_text(self),
    {
        match self {
            FaultKind::ZipContainer => "日志文件「",
            FaultKind::Container => "日志文件「",
            FaultKind::BadSource => "日志来源不能为空，匹配方式需为前缀、路径片段或精确路径",
            FaultKind::NotRelative => "日志文件路径须为归档内的相对路径，使用 / 分隔：",
            FaultKind::NoSuchFile => "日志文件引用不存在：",
            FaultKind::NoFileChosen => "规则「",
            FaultKind::RepeatedFile => "规则「",
            FaultKind::StillReferenced => "日志文件仍被以下规则引用，请先调整或删除规则：",
            FaultKind::FileId => "日志文件标识重复或为空：",
            FaultKind::FileName => "日志文件名称重复或为空：",
            FaultKind::FilePath => "日志文件路径重复：",
            FaultKind::PanelWidth => "日志文件栏宽度须为 180～360",
            FaultKind::Version => "不支持的规则格式版本：",
            FaultKind::RuleId => "规则标识重复：",
            FaultKind::RuleTerms => "规则「",
            FaultKind::RuleSources => "规则「",
            FaultKind::RulePattern => "规则「",
            FaultKind::RuleOptions => "规则「",
            FaultKind::Timezone => "规则「",
            FaultKind::TimeFormat => "规则「",
            FaultKind::TimePattern => "规则「",
            FaultKind::SystemOptions => "「",
            FaultKind::SystemStorage => "「",
            FaultKind::SystemPatternMissing => "「",
            FaultKind::SystemId => "信息组标识重复：",
            FaultKind::SystemFields => "「",
            FaultKind::FieldName => "「",
            FaultKind::FieldCapture => "「",
            FaultKind::FieldOptions => "「",
            FaultKind::SystemPattern => "「",
            FaultKind::SystemJoin => "「",
            FaultKind::EventId => "时间线事实事件标识重复或为空：",
            FaultKind::EventType => "时间线事实事件「",
            FaultKind::EventTerms => "时间线事实事件「",
            FaultKind::EventStrength => "时间线事实事件「",
            FaultKind::EventFile => "时间线事实事件「",
            FaultKind::EventPattern => "时间线事实事件「",
            FaultKind::JudgementId => "时间线判定规则标识重复或为空：",
            FaultKind::JudgementOutput => "时间线判定规则「",
            FaultKind::JudgementConfidence => "时间线判定规则「",
            FaultKind::Thresholds => "时间线匹配窗口和日志断档阈值必须大于 0 秒",
            FaultKind::Style => "报告样式：颜色需为 #RRGGBB，字号需为 10 至 24",
            FaultKind::Batch => "报告样式：每批显示行数需为 10 至 5000",
            FaultKind::BrokenPattern => "",
            FaultKind::RuleJson => "规则 JSON 无效，请使用包含日志文件目录的新版规则",
            FaultKind::NotJson => "JSON 内容无法解析",
            FaultKind::ExtractKind => "不支持的提取方式：",
            FaultKind::IllegalPath => "压缩包包含非法路径",
            FaultKind::UnsafeName => "压缩包包含不安全文件名：",
            FaultKind::LinkInOutput => "输出路径包含符号链接",
            FaultKind::ZipArchive => "暂不支持 ZIP 诊断包，请使用 TGZ 格式",
            FaultKind::ArchiveContainer => "归档容器不受支持：",
            FaultKind::ZipContent => "归档容器标记为诊断包，但实际文件是 ZIP；请检查日志文件配置",
            FaultKind::NotArchive => "诊断包格式不受支持，请使用 TGZ 格式",
            FaultKind::EntryType => "压缩包包含链接或不支持的条目类型",
            FaultKind::EmptyArchive => "诊断包为空",
            FaultKind::NoFiles => "诊断包中没有文件",
            FaultKind::PackageChanged => "分析期间诊断包发生变化，请等待下载完成后重试",
            FaultKind::PackageChangedLate => "生成期间诊断包发生变化，未替换报告",
            FaultKind::Cancelled => "任务已取消，已生成文件保留在输出目录",
            FaultKind::TaskChanged => "任务状态已变化，未删除",
            FaultKind::FileChanged => "文件已变化，请重新检查后再删除",
            FaultKind::NotCompleted => "任务尚未成功完成",
            FaultKind::WrongOutput => "输出目录与诊断包不对应",
            FaultKind::LinkOnPath => "路径包含链接：",
            FaultKind::CleanupPackage => "诊断包已发生变化，已跳过",
            FaultKind::OutputNotDirectory => "输出路径不是目录",
            FaultKind::OutputChanged => "输出目录已发生变化，已跳过",
            FaultKind::System => "",
            FaultKind::AddressFormat => "WebDAV 地址格式无效",
            FaultKind::AddressScheme => "WebDAV 地址必须使用 HTTP 或 HTTPS，并包含服务器地址",
            FaultKind::RemotePathMissing => "远端文件路径不能为空",
            FaultKind::RemotePathInvalid => "WebDAV 远端路径无效",
            FaultKind::RemotePathElsewhere => "远端文件路径必须位于当前 WebDAV 服务器",
            FaultKind::NoLogFile => "请先添加日志文件，再添加规则",
            FaultKind::NothingSelected => "请先选择规则",
            FaultKind::ChooseFile => "请选择日志文件",
            FaultKind::NameMissing => "请填写规则名称",
            FaultKind::BasicsMissing => "请填写规则名称和日志来源。",
            FaultKind::DirectoryAccess => "请选择可访问的监控目录",
            FaultKind::DirectoryMissing => "请先选择监控目录",
            FaultKind::NoServer => "请先配置 WebDAV",
            FaultKind::ServerStatus => "WebDAV 服务器返回错误状态：",
            FaultKind::DownloadStatus => "下载规则失败，服务器状态：",
            FaultKind::UploadStatus => "上传规则失败，服务器状态：",
            FaultKind::RemoteText => "远端规则必须为 UTF-8 文本",
            FaultKind::NoCredential => "未找到 WebDAV 凭据，请重新填写密码",
            FaultKind::PasswordSave => "密码保存失败",
            FaultKind::ConfigSave => "配置文件保存失败，已撤销本次凭据修改",
            FaultKind::ConfigNotRestored => "配置文件保存失败：",
            FaultKind::StartupRead => "无法读取 Windows 启动项",
            FaultKind::StartupSave => "无法保存 Windows 启动项",
            FaultKind::StartupNotRestored => "无法保存 Windows 启动项: ",
            FaultKind::SettingsSave => "保存设置失败，启动项已恢复：",
            FaultKind::SettingsNotRestored => "保存设置失败：",
        }
    }

    fn middle(self) -> (r: &'static str)
        ensures
            r@ == middle_text(self),
    {
        match self {
            FaultKind::ZipContainer => "」暂不支持 ZIP 容器",
            FaultKind::Container => "」的归档容器不受支持：",
            FaultKind::NoFileChosen => "」：请选择已维护的日志文件",
            FaultKind::RepeatedFile => "」重复引用日志文件：",
            FaultKind::Version => "，请使用新版规则文件",
            FaultKind::RuleTerms => "」：请填写名称和至少一个非空关键词",
            FaultKind::RuleSources => "」：请选择日志范围",
            FaultKind::RulePattern => "」正则无效",
            FaultKind::RuleOptions => "」包含不支持的匹配或展示选项",
            FaultKind::Timezone => "」时区格式应为 +08:00 或 -05:00",
            FaultKind::TimeFormat => "」时间格式无效",
            FaultKind::TimePattern => "」时间表达式无效",
            FaultKind::SystemOptions => "」提取或展示方式不支持",
            FaultKind::SystemStorage => "」存储展示需要 JSON 提取及对应的磁盘数组路径",
            FaultKind::SystemPatternMissing => "」请填写提取表达式",
            FaultKind::SystemFields => "」需要至少一个有名称和来源的字段",
            FaultKind::FieldName => "」字段名称重复：",
            FaultKind::FieldCapture => " / ",
            FaultKind::FieldOptions => " / ",
            FaultKind::SystemPattern => "」提取表达式无效",
            FaultKind::SystemJoin => "」关联配置不完整",
            FaultKind::EventType => "」类型不支持：",
            FaultKind::EventTerms => "」至少需要一个关键词",
            FaultKind::EventStrength => "」证据等级不支持：",
            FaultKind::EventFile => "」引用的日志不存在：",
            FaultKind::EventPattern => "」正则无效",
            FaultKind::JudgementOutput => "」必须填写输出结论",
            FaultKind::JudgementConfidence => "」置信度不支持：",
            FaultKind::ConfigNotRestored => "；原凭据恢复失败：",
            FaultKind::StartupNotRestored => "；恢复原启动项也失败：",
            FaultKind::SettingsNotRestored => "；恢复原启动项也失败：",
            _ => "",
        }
    }

    fn tail(self) -> (r: &'static str)
        ensures
            r@ == tail_text(self),
    {
        match self {
            FaultKind::FieldCapture => "」字段提取表达式无效",
            FaultKind::FieldOptions => "」格式或展示方式无效",
            FaultKind::ConfigNotRestored => "，请重新保存密码",
            _ => "",
        }
    }
}

impl Fault {
    pub fn new(kind: FaultKind, subject: &str) -> (r: Self)
        ensures
            r@ == refusal(kind, subject@),
    {
        let r = Fault {
            kind,
            subject: subject.to_owned(),
            detail: String::new(),
            cause: String::new(),
        };
        proof {
            assert(r@ =~= refusal(kind, subject@));
        }
        r
    }

    pub fn with_detail(kind: FaultKind, subject: &str, detail: &str) -> (r: Self)
        ensures
            r@ == detailed(kind, subject@, detail@),
    {
        let r = Fault {
            kind,
            subject: subject.to_owned(),
            detail: detail.to_owned(),
            cause: String::new(),
        };
        proof {
            assert(r@ =~= detailed(kind, subject@, detail@));
        }
        r
    }

    pub fn with_cause(kind: FaultKind, subject: &str, detail: &str, cause: &str) -> (r: Self)
        ensures
            r@ == caused(kind, subject@, detail@, cause@),
    {
        Fault {
            kind,
            subject: subject.to_owned(),
            detail: detail.to_owned(),
            cause: cause.to_owned(),
        }
    }

    /// A refusal of its kind alone.
    pub fn plain(kind: FaultKind) -> (r: Self)
        ensures
            r@ == refusal(kind, Seq::empty()),
    {
        let r = Fault {
            kind,
            subject: String::new(),
            detail: String::new(),
            cause: String::new(),
        };
        proof {
            assert(r@ =~= refusal(kind, Seq::empty()));
        }
        r
    }

    /// What a user is told.
    pub fn message(&self) -> (r: String)
        ensures
            r@ == self@.message(),
    {
        let mut s = self.kind.head().to_owned();
        s.append(self.subject.as_str());
        s.append(self.kind.middle());
        s.append(self.detail.as_str());
        s.append(self.kind.tail());
        s
    }
}

} // verus!
