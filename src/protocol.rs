use vstd::prelude::*;

verus! {

/// Engagement counters of a piece of user data.
#[derive(Debug, Clone, Copy, PartialEq, Eq, Structural)]
pub struct EngagementMetrics {
    pub likes: u32,
    pub shares: u32,
    pub comments: u32,
    pub views: u32,
    pub reach: u32,
}

#[derive(Debug, Clone, Copy, PartialEq, Eq, Structural)]
pub enum SensitivityLevel {
    Public,
    Restricted,
    Private,
    Confidential,
}

#[derive(Debug, Clone, Copy, PartialEq, Eq, Structural)]
pub enum LocationPrecision {
    Country,
    State,
    City,
    Neighborhood,
    Exact,
}

#[derive(Debug, Clone, Copy, PartialEq, Eq, Structural)]
pub enum VerificationStatus {
    Unverified,
    SelfReported,
    ThirdPartyVerified,
    BlockchainVerified,
}

#[derive(Debug, Clone, Copy, PartialEq, Eq, Structural)]
pub enum AccessType {
    View,
    Analyze,
    Aggregate,
    Download,
    Share,
}

#[derive(Debug, Clone, Copy, PartialEq, Eq, Structural)]
pub enum PeriodType {
    Daily,
    Weekly,
    Monthly,
    Custom { days: u32 },
}

#[derive(Debug, Clone, Copy, PartialEq, Eq, Structural)]
pub enum ActivityLevel {
    Low,
    Medium,
    High,
    VeryHigh,
}

#[derive(Debug, Clone, Copy, PartialEq, Eq, Structural)]
pub enum SpendingCategory {
    Budget,
    Moderate,
    Premium,
    Luxury,
}

/// A coarse, anonymised description of a data owner.
#[derive(Debug, Clone)]
pub struct DemographicSummary {
    pub age_range: Option<String>,
    pub location_region: Option<String>,
    pub interests: Vec<String>,
    pub activity_level: ActivityLevel,
    pub spending_category: SpendingCategory,
}

#[derive(Debug, Clone, Copy, PartialEq, Eq, Structural)]
pub enum AdvertiserType {
    TechCompany,
    RetailBrand,
    HealthcareProvider,
    FinancialServices,
    Entertainment,
    Education,
    NonProfit,
    Government,
    Any,
}

/// What an advertiser may do with unlocked data.
#[derive(Debug, Clone, Copy, PartialEq, Eq, Structural)]
pub struct UsageRestrictions {
    pub can_aggregate: bool,
    pub can_profile: bool,
    pub can_retarget: bool,
    pub max_usage_days: u32,
    pub attribution_required: bool,
    pub data_deletion_required: bool,
}

#[derive(Debug, Clone, Copy, PartialEq, Eq, Structural)]
pub enum NFTStatus {
    Active,
    Locked,
    Unlocked,
    Expired,
    Transferred,
}

/// The campaign an advertiser unlocks data for.
#[derive(Debug, Clone)]
pub struct CampaignDetails {
    pub campaign_id: String,
    pub campaign_name: String,
    pub advertiser_type: AdvertiserType,
    pub target_audience: String,
    pub campaign_purpose: String,
    pub compliance_certifications: Vec<String>,
}

#[derive(Debug, Clone, Copy, PartialEq, Eq, Structural)]
pub enum ContractType {
    SocialWager,
    ChessGame,
    SportsStaking,
    FitnessChallenge,
    WordleGame,
    DataReward,
    ContentCreator,
    StakingPool,
}

#[derive(Debug, Clone, Copy, PartialEq, Eq, Structural)]
pub enum ContractState {
    Pending,
    Active,
    Completed,
    Cancelled,
    Disputed,
}

#[derive(Debug, Clone, Copy, PartialEq, Eq, Structural)]
pub enum SportType {
    NFL,
    NBA,
    Soccer,
    Tennis,
    Chess,
}

#[derive(Debug, Clone, Copy, PartialEq, Eq, Structural)]
pub enum DataType {
    SocialPost,
    ProfileData,
    InteractionData,
    LocationData,
    PurchaseData,
    HealthData,
}

} // verus!
