//! Fixed catalogues of places a cleanup looks at: developer caches and
//! browser privacy data. Every location is relative to the home directory
//! and fixed here; nothing in them comes from the user interface or from a
//! tool's configuration.
use vstd::prelude::*;
use crate::guard::{path_join, path_push};
use crate::text::push_str;

verus! {

/// A developer cache: `(risk, id, name, path under home, description)`;
/// risk 0 is rebuilt on its own, 1 costs time, 2 loses data.
pub type DevCacheRow = (u8, &'static str, &'static str, &'static str, &'static str);

pub open spec fn dev_row_view(r: DevCacheRow) -> (u8, Seq<char>, Seq<char>, Seq<char>, Seq<char>) {
    (r.0, r.1@, r.2@, r.3@, r.4@)
}

/// The developer caches a cleanup offers.
pub open spec fn dev_cache_table() -> Seq<(u8, Seq<char>, Seq<char>, Seq<char>, Seq<char>)> {
    seq![
        (0u8, "npm"@, "npm cache"@, ".npm"@, "Paquets mis en cache par npm. Se reconstruit automatiquement au prochain install."@),
        (0u8, "yarn_v1"@, "Yarn v1"@, ".yarn/cache"@, "Cache global Yarn v1. Se reconstruit automatiquement."@),
        (0u8, "pnpm"@, "pnpm store"@, "Library/pnpm"@, "Store global pnpm partagé entre projets. Les liens durs seront recréés."@),
        (0u8, "bun"@, "Bun cache"@, "Library/Caches/bun"@, "Cache des paquets Bun. Se reconstruit automatiquement."@),
        (0u8, "deno"@, "Deno cache"@, "Library/Caches/deno"@, "Modules Deno mis en cache. Retéléchargés à la prochaine exécution."@),
        (0u8, "pip"@, "pip cache"@, "Library/Caches/pip"@, "Paquets Python mis en cache par pip. Retéléchargés au prochain install."@),
        (0u8, "pip_alt"@, "pip cache (alt)"@, ".cache/pip"@, "Cache pip alternatif (~/.cache/pip). Comportement identique au cache pip principal."@),
        (0u8, "uv"@, "UV cache"@, "Library/Caches/uv"@, "Cache du gestionnaire de paquets UV. Se reconstruit automatiquement."@),
        (0u8, "poetry"@, "Poetry cache"@, "Library/Caches/pypoetry"@, "Cache des dépendances Poetry. Retéléchargées au prochain install."@),
        (0u8, "pipenv_venv"@, "pipenv virtualenvs"@, ".local/share/virtualenvs"@, "Environnements virtuels créés par pipenv. Recréables avec `pipenv install`."@),
        (0u8, "conda"@, "Conda pkgs"@, ".conda/pkgs"@, "Paquets Conda mis en cache. Retéléchargés au prochain install."@),
        (0u8, "gradle"@, "Gradle caches"@, ".gradle/caches"@, "Caches Gradle (dépendances, caches de build). Se reconstruit au prochain build."@),
        (0u8, "gradle_wrap"@, "Gradle Wrapper"@, ".gradle/wrapper/dists"@, "Binaires Gradle Wrapper téléchargés. Retéléchargés automatiquement si supprimés."@),
        (0u8, "maven"@, "Maven local repo"@, ".m2/repository"@, "Dépôt Maven local (~/.m2). Les dépendances sont retéléchargées au prochain build."@),
        (0u8, "sbt"@, "SBT cache"@, ".sbt"@, "Cache SBT (Scala). Plugins et dépendances retéléchargés au prochain build."@),
        (0u8, "ivy"@, "Ivy cache"@, ".ivy2/cache"@, "Cache Ivy (Java/Scala). Retéléchargé automatiquement."@),
        (0u8, "cocoapods"@, "CocoaPods cache"@, "Library/Caches/CocoaPods"@, "Pods mis en cache. Retéléchargés au prochain `pod install`."@),
        (0u8, "carthage"@, "Carthage cache"@, "Library/Caches/org.carthage.CarthageKit"@, "Frameworks Carthage mis en cache. Retéléchargés si supprimés."@),
        (0u8, "swiftpm"@, "Swift PM cache"@, "Library/Caches/org.swift.swiftpm"@, "Paquets Swift Package Manager téléchargés. Se reconstruisent au prochain build."@),
        (0u8, "xcode_logs"@, "Xcode Logs"@, "Library/Developer/Xcode/Logs"@, "Logs de build et de simulateur Xcode. Aucun impact fonctionnel."@),
        (0u8, "xcode_prev"@, "Xcode Previews"@, "Library/Developer/Xcode/Previews"@, "Aperçus SwiftUI générés. Regénérés automatiquement."@),
        (1u8, "xcode_dd"@, "Xcode DerivedData"@, "Library/Developer/Xcode/DerivedData"@, "Données de build Xcode. Le prochain build repart de zéro (compilation lente)."@),
        (1u8, "xcode_devsup"@, "Xcode Device Support"@, "Library/Developer/Xcode/iOS DeviceSupport"@, "Symboles pour débogage sur appareils physiques. Retéléchargés si nécessaire."@),
        (1u8, "ios_sim_cache"@, "iOS Simulateurs (cache)"@, "Library/Developer/CoreSimulator/Caches"@, "Caches du simulateur iOS. La prochaine session simulateur peut être plus lente."@),
        (2u8, "ios_sim_dev"@, "iOS Simulateurs (appareils)"@, "Library/Developer/CoreSimulator/Devices"@, "Données des appareils simulés (apps installées, données). Non récupérables."@),
        (2u8, "xcode_arch"@, "Xcode Archives"@, "Library/Developer/Xcode/Archives"@, "Archives Xcode (binaires signés, distributions App Store). JAMAIS récupérables sans sauvegarde."@),
        (0u8, "rubygems"@, "RubyGems"@, ".gem"@, "Gems Ruby installées globalement. Réinstallables avec `gem install`."@),
        (0u8, "bundler"@, "Bundler cache"@, ".bundle/cache"@, "Cache global Bundler. Se reconstruit au prochain `bundle install`."@),
        (1u8, "rbenv"@, "rbenv versions"@, ".rbenv/versions"@, "Versions Ruby installées via rbenv. Large téléchargement si supprimées."@),
        (1u8, "rvm"@, "RVM rubies"@, ".rvm/rubies"@, "Versions Ruby installées via RVM. Large téléchargement si supprimées."@),
        (0u8, "go_build"@, "Go build cache"@, ".cache/go-build"@, "Cache de compilation Go. Se reconstruit automatiquement à la prochaine compilation."@),
        (0u8, "go_mod"@, "Go module cache"@, "go/pkg/mod"@, "Cache des modules Go (~~/go/pkg/mod). Retéléchargés si supprimés."@),
        (0u8, "cargo_reg"@, "Cargo registry"@, ".cargo/registry"@, "Registry crates.io (sources + index). Retéléchargé à la prochaine compilation Rust."@),
        (0u8, "cargo_git"@, "Cargo git sources"@, ".cargo/git"@, "Sources Git clonées par Cargo. Reclonées automatiquement si supprimées."@),
        (0u8, "composer"@, "Composer cache"@, ".composer/cache"@, "Cache Composer (PHP). Les paquets sont retéléchargés au prochain install."@),
        (0u8, "terraform"@, "Terraform plugins"@, ".terraform.d/plugin-cache"@, "Plugins Terraform téléchargés. Retéléchargés au prochain `terraform init`."@),
        (0u8, "bazel"@, "Bazel cache"@, ".cache/bazel"@, "Cache de build Bazel. Se reconstruit au prochain build."@),
        (0u8, "pub"@, "Dart/Flutter pub"@, ".pub-cache"@, "Cache pub (Dart/Flutter). Packages retéléchargés au prochain `flutter pub get`."@),
        (0u8, "docker_buildx"@, "Docker buildx cache"@, ".docker/buildx"@, "Cache Docker buildx (couches de build). Retéléchargé au prochain build Docker."@),
        (0u8, "playwright"@, "Playwright browsers"@, "Library/Caches/ms-playwright"@, "Navigateurs Playwright (Chromium, Firefox, WebKit). Réinstallables via `playwright install`."@),
        (0u8, "cypress"@, "Cypress cache"@, "Library/Caches/Cypress"@, "Binaires Cypress. Retéléchargés automatiquement."@),
        (0u8, "puppeteer"@, "Puppeteer cache"@, "Library/Caches/puppeteer"@, "Binaires Puppeteer (Chromium). Retéléchargés à la prochaine installation."@),
        (0u8, "prisma"@, "Prisma engines"@, "Library/Caches/prisma"@, "Binaires Prisma Query Engine. Regénérés au prochain `prisma generate`."@),
        (1u8, "ollama"@, "Ollama models"@, ".ollama/models"@, "Modèles LLM Ollama téléchargés. Grand téléchargement si supprimés."@),
        (1u8, "huggingface"@, "HuggingFace cache"@, ".cache/huggingface/hub"@, "Modèles HuggingFace téléchargés. Grand téléchargement si supprimés."@),
        (0u8, "cursor_cache"@, "Cursor cache"@, "Library/Application Support/Cursor/Cache"@, "Cache Cursor IDE (Chromium). Vidé automatiquement au redémarrage de Cursor."@),
        (0u8, "cursor_data"@, "Cursor CachedData"@, "Library/Application Support/Cursor/CachedData"@, "JS compilé de Cursor. Regénéré au premier lancement."@),
        (0u8, "windsurf"@, "Windsurf cache"@, "Library/Application Support/Windsurf/Cache"@, "Cache Windsurf IDE. Regénéré automatiquement."@),
        (0u8, "chatgpt"@, "ChatGPT cache"@, "Library/Application Support/ChatGPT/Cache"@, "Cache ChatGPT Desktop. Peut nécessiter une reconnexion."@),
        (0u8, "vscode_cache"@, "VS Code cache"@, "Library/Application Support/Code/Cache"@, "Cache VS Code (Electron). Vidé automatiquement au redémarrage de VS Code."@),
        (0u8, "vscode_data"@, "VS Code CachedData"@, "Library/Application Support/Code/CachedData"@, "JS compilé de VS Code. Regénéré au premier lancement."@),
        (0u8, "vscode_logs"@, "VS Code logs"@, "Library/Application Support/Code/logs"@, "Logs VS Code. Aucun impact fonctionnel."@),
        (0u8, "vscode_gpu"@, "VS Code GPU cache"@, "Library/Application Support/Code/GPUCache"@, "Cache GPU Chromium de VS Code. Regénéré automatiquement."@),
        (1u8, "vscode_ext"@, "VS Code extensions"@, ".vscode/extensions"@, "Extensions VS Code installées. Réinstallables depuis le marketplace."@),
        (1u8, "jetbrains"@, "JetBrains caches"@, "Library/Caches/JetBrains"@, "Caches des IDEs JetBrains (IntelliJ, WebStorm…). Regénérés au prochain lancement."@),
        (0u8, "unity_cache"@, "Unity cache"@, "Library/Caches/Unity"@, "Cache Unity Editor (shaders, assets). Regénéré à l'ouverture du projet."@),
        (0u8, "unity_hub"@, "Unity Hub cache"@, "Library/Application Support/UnityHub/cache"@, "Cache Unity Hub (installeurs). Retéléchargé si nécessaire."@),
        (0u8, "godot"@, "Godot cache"@, "Library/Application Support/Godot"@, "Cache Godot Editor. Regénéré automatiquement."@),
        (1u8, "nvm"@, "nvm Node versions"@, ".nvm/versions"@, "Versions Node.js installées via nvm. Réinstallables avec `nvm install`."@),
        (1u8, "pyenv"@, "pyenv Python versions"@, ".pyenv/versions"@, "Versions Python installées via pyenv. Réinstallables avec `pyenv install`."@),
        (0u8, "mise_cache"@, "mise cache"@, ".mise/cache"@, "Cache mise (gestionnaire de versions). Retéléchargé automatiquement."@),
        (0u8, "aws_cli"@, "AWS CLI cache"@, ".aws/cli/cache"@, "Credentials temporaires et métadonnées AWS CLI. Peut forcer une ré-authentification."@),
        (1u8, "brew_cache"@, "Homebrew téléchargements"@, "Library/Caches/Homebrew"@, "Archives des formules Homebrew téléchargées. Retéléchargées si nécessaire."@),
        (2u8, "android_avd"@, "Android Emulators"@, ".android/avd"@, "Données des émulateurs Android (AVD). Les données des appareils virtuels seront perdues."@),
    ]
}

/// The developer caches a cleanup offers.
pub fn dev_cache_rows() -> (v: Vec<DevCacheRow>)
    ensures
        v@.map_values(|r: DevCacheRow| dev_row_view(r)) == dev_cache_table(),
{
    let v: Vec<DevCacheRow> = vec![
        (0, "npm", "npm cache", ".npm", "Paquets mis en cache par npm. Se reconstruit automatiquement au prochain install."),
        (0, "yarn_v1", "Yarn v1", ".yarn/cache", "Cache global Yarn v1. Se reconstruit automatiquement."),
        (0, "pnpm", "pnpm store", "Library/pnpm", "Store global pnpm partagé entre projets. Les liens durs seront recréés."),
        (0, "bun", "Bun cache", "Library/Caches/bun", "Cache des paquets Bun. Se reconstruit automatiquement."),
        (0, "deno", "Deno cache", "Library/Caches/deno", "Modules Deno mis en cache. Retéléchargés à la prochaine exécution."),
        (0, "pip", "pip cache", "Library/Caches/pip", "Paquets Python mis en cache par pip. Retéléchargés au prochain install."),
        (0, "pip_alt", "pip cache (alt)", ".cache/pip", "Cache pip alternatif (~/.cache/pip). Comportement identique au cache pip principal."),
        (0, "uv", "UV cache", "Library/Caches/uv", "Cache du gestionnaire de paquets UV. Se reconstruit automatiquement."),
        (0, "poetry", "Poetry cache", "Library/Caches/pypoetry", "Cache des dépendances Poetry. Retéléchargées au prochain install."),
        (0, "pipenv_venv", "pipenv virtualenvs", ".local/share/virtualenvs", "Environnements virtuels créés par pipenv. Recréables avec `pipenv install`."),
        (0, "conda", "Conda pkgs", ".conda/pkgs", "Paquets Conda mis en cache. Retéléchargés au prochain install."),
        (0, "gradle", "Gradle caches", ".gradle/caches", "Caches Gradle (dépendances, caches de build). Se reconstruit au prochain build."),
        (0, "gradle_wrap", "Gradle Wrapper", ".gradle/wrapper/dists", "Binaires Gradle Wrapper téléchargés. Retéléchargés automatiquement si supprimés."),
        (0, "maven", "Maven local repo", ".m2/repository", "Dépôt Maven local (~/.m2). Les dépendances sont retéléchargées au prochain build."),
        (0, "sbt", "SBT cache", ".sbt", "Cache SBT (Scala). Plugins et dépendances retéléchargés au prochain build."),
        (0, "ivy", "Ivy cache", ".ivy2/cache", "Cache Ivy (Java/Scala). Retéléchargé automatiquement."),
        (0, "cocoapods", "CocoaPods cache", "Library/Caches/CocoaPods", "Pods mis en cache. Retéléchargés au prochain `pod install`."),
        (0, "carthage", "Carthage cache", "Library/Caches/org.carthage.CarthageKit", "Frameworks Carthage mis en cache. Retéléchargés si supprimés."),
        (0, "swiftpm", "Swift PM cache", "Library/Caches/org.swift.swiftpm", "Paquets Swift Package Manager téléchargés. Se reconstruisent au prochain build."),
        (0, "xcode_logs", "Xcode Logs", "Library/Developer/Xcode/Logs", "Logs de build et de simulateur Xcode. Aucun impact fonctionnel."),
        (0, "xcode_prev", "Xcode Previews", "Library/Developer/Xcode/Previews", "Aperçus SwiftUI générés. Regénérés automatiquement."),
        (1, "xcode_dd", "Xcode DerivedData", "Library/Developer/Xcode/DerivedData", "Données de build Xcode. Le prochain build repart de zéro (compilation lente)."),
        (1, "xcode_devsup", "Xcode Device Support", "Library/Developer/Xcode/iOS DeviceSupport", "Symboles pour débogage sur appareils physiques. Retéléchargés si nécessaire."),
        (1, "ios_sim_cache", "iOS Simulateurs (cache)", "Library/Developer/CoreSimulator/Caches", "Caches du simulateur iOS. La prochaine session simulateur peut être plus lente."),
        (2, "ios_sim_dev", "iOS Simulateurs (appareils)", "Library/Developer/CoreSimulator/Devices", "Données des appareils simulés (apps installées, données). Non récupérables."),
        (2, "xcode_arch", "Xcode Archives", "Library/Developer/Xcode/Archives", "Archives Xcode (binaires signés, distributions App Store). JAMAIS récupérables sans sauvegarde."),
        (0, "rubygems", "RubyGems", ".gem", "Gems Ruby installées globalement. Réinstallables avec `gem install`."),
        (0, "bundler", "Bundler cache", ".bundle/cache", "Cache global Bundler. Se reconstruit au prochain `bundle install`."),
        (1, "rbenv", "rbenv versions", ".rbenv/versions", "Versions Ruby installées via rbenv. Large téléchargement si supprimées."),
        (1, "rvm", "RVM rubies", ".rvm/rubies", "Versions Ruby installées via RVM. Large téléchargement si supprimées."),
        (0, "go_build", "Go build cache", ".cache/go-build", "Cache de compilation Go. Se reconstruit automatiquement à la prochaine compilation."),
        (0, "go_mod", "Go module cache", "go/pkg/mod", "Cache des modules Go (~~/go/pkg/mod). Retéléchargés si supprimés."),
        (0, "cargo_reg", "Cargo registry", ".cargo/registry", "Registry crates.io (sources + index). Retéléchargé à la prochaine compilation Rust."),
        (0, "cargo_git", "Cargo git sources", ".cargo/git", "Sources Git clonées par Cargo. Reclonées automatiquement si supprimées."),
        (0, "composer", "Composer cache", ".composer/cache", "Cache Composer (PHP). Les paquets sont retéléchargés au prochain install."),
        (0, "terraform", "Terraform plugins", ".terraform.d/plugin-cache", "Plugins Terraform téléchargés. Retéléchargés au prochain `terraform init`."),
        (0, "bazel", "Bazel cache", ".cache/bazel", "Cache de build Bazel. Se reconstruit au prochain build."),
        (0, "pub", "Dart/Flutter pub", ".pub-cache", "Cache pub (Dart/Flutter). Packages retéléchargés au prochain `flutter pub get`."),
        (0, "docker_buildx", "Docker buildx cache", ".docker/buildx", "Cache Docker buildx (couches de build). Retéléchargé au prochain build Docker."),
        (0, "playwright", "Playwright browsers", "Library/Caches/ms-playwright", "Navigateurs Playwright (Chromium, Firefox, WebKit). Réinstallables via `playwright install`."),
        (0, "cypress", "Cypress cache", "Library/Caches/Cypress", "Binaires Cypress. Retéléchargés automatiquement."),
        (0, "puppeteer", "Puppeteer cache", "Library/Caches/puppeteer", "Binaires Puppeteer (Chromium). Retéléchargés à la prochaine installation."),
        (0, "prisma", "Prisma engines", "Library/Caches/prisma", "Binaires Prisma Query Engine. Regénérés au prochain `prisma generate`."),
        (1, "ollama", "Ollama models", ".ollama/models", "Modèles LLM Ollama téléchargés. Grand téléchargement si supprimés."),
        (1, "huggingface", "HuggingFace cache", ".cache/huggingface/hub", "Modèles HuggingFace téléchargés. Grand téléchargement si supprimés."),
        (0, "cursor_cache", "Cursor cache", "Library/Application Support/Cursor/Cache", "Cache Cursor IDE (Chromium). Vidé automatiquement au redémarrage de Cursor."),
        (0, "cursor_data", "Cursor CachedData", "Library/Application Support/Cursor/CachedData", "JS compilé de Cursor. Regénéré au premier lancement."),
        (0, "windsurf", "Windsurf cache", "Library/Application Support/Windsurf/Cache", "Cache Windsurf IDE. Regénéré automatiquement."),
        (0, "chatgpt", "ChatGPT cache", "Library/Application Support/ChatGPT/Cache", "Cache ChatGPT Desktop. Peut nécessiter une reconnexion."),
        (0, "vscode_cache", "VS Code cache", "Library/Application Support/Code/Cache", "Cache VS Code (Electron). Vidé automatiquement au redémarrage de VS Code."),
        (0, "vscode_data", "VS Code CachedData", "Library/Application Support/Code/CachedData", "JS compilé de VS Code. Regénéré au premier lancement."),
        (0, "vscode_logs", "VS Code logs", "Library/Application Support/Code/logs", "Logs VS Code. Aucun impact fonctionnel."),
        (0, "vscode_gpu", "VS Code GPU cache", "Library/Application Support/Code/GPUCache", "Cache GPU Chromium de VS Code. Regénéré automatiquement."),
        (1, "vscode_ext", "VS Code extensions", ".vscode/extensions", "Extensions VS Code installées. Réinstallables depuis le marketplace."),
        (1, "jetbrains", "JetBrains caches", "Library/Caches/JetBrains", "Caches des IDEs JetBrains (IntelliJ, WebStorm…). Regénérés au prochain lancement."),
        (0, "unity_cache", "Unity cache", "Library/Caches/Unity", "Cache Unity Editor (shaders, assets). Regénéré à l'ouverture du projet."),
        (0, "unity_hub", "Unity Hub cache", "Library/Application Support/UnityHub/cache", "Cache Unity Hub (installeurs). Retéléchargé si nécessaire."),
        (0, "godot", "Godot cache", "Library/Application Support/Godot", "Cache Godot Editor. Regénéré automatiquement."),
        (1, "nvm", "nvm Node versions", ".nvm/versions", "Versions Node.js installées via nvm. Réinstallables avec `nvm install`."),
        (1, "pyenv", "pyenv Python versions", ".pyenv/versions", "Versions Python installées via pyenv. Réinstallables avec `pyenv install`."),
        (0, "mise_cache", "mise cache", ".mise/cache", "Cache mise (gestionnaire de versions). Retéléchargé automatiquement."),
        (0, "aws_cli", "AWS CLI cache", ".aws/cli/cache", "Credentials temporaires et métadonnées AWS CLI. Peut forcer une ré-authentification."),
        (1, "brew_cache", "Homebrew téléchargements", "Library/Caches/Homebrew", "Archives des formules Homebrew téléchargées. Retéléchargées si nécessaire."),
        (2, "android_avd", "Android Emulators", ".android/avd", "Données des émulateurs Android (AVD). Les données des appareils virtuels seront perdues."),
    ];
    assert(v@.map_values(|r: DevCacheRow| dev_row_view(r)) =~= dev_cache_table());
    v
}

/// Browser and system privacy data: `(id, label, locations under home)`;
/// the first location that exists is the one cleaned.
pub open spec fn privacy_table() -> Seq<(Seq<char>, Seq<char>, Seq<Seq<char>>)> {
    seq![
        ("safari_history"@, "Safari — Historique"@, seq!["Library/Safari/History.db"@]),
        ("safari_cache"@, "Safari — Cache"@, seq!["Library/Caches/com.apple.Safari"@]),
        ("chrome_cache"@, "Chrome — Cache"@, seq!["Library/Caches/Google/Chrome"@, "Library/Caches/com.google.Chrome"@, "Library/Application Support/Google/Chrome/Default/Cache"@]),
        ("chrome_history"@, "Chrome — Historique"@, seq!["Library/Application Support/Google/Chrome/Default/History"@]),
        ("firefox_cache"@, "Firefox — Cache"@, seq!["Library/Caches/Firefox"@, "Library/Caches/org.mozilla.firefox"@]),
        ("librewolf_cache"@, "LibreWolf — Cache"@, seq!["Library/Caches/io.gitlab.librewolf-community"@, "Library/Application Support/librewolf/Profiles"@]),
        ("waterfox_cache"@, "Waterfox — Cache"@, seq!["Library/Caches/net.waterfox.waterfox"@, "Library/Application Support/Waterfox/Profiles"@]),
        ("floorp_cache"@, "Floorp — Cache"@, seq!["Library/Caches/org.mozilla.floorp"@, "Library/Application Support/Floorp/Profiles"@]),
        ("mullvad_cache"@, "Mullvad Browser — Cache"@, seq!["Library/Caches/net.mullvad.MullvadBrowser"@, "Library/Application Support/MullvadBrowser/Profiles"@]),
        ("tor_cache"@, "Tor Browser — Données"@, seq!["Library/Application Support/TorBrowser-Data"@]),
        ("brave_cache"@, "Brave — Cache"@, seq!["Library/Caches/BraveSoftware/Brave-Browser"@, "Library/Caches/com.brave.Browser"@, "Library/Application Support/BraveSoftware/Brave-Browser/Default/Cache"@]),
        ("edge_cache"@, "Edge — Cache"@, seq!["Library/Caches/com.microsoft.edgemac"@, "Library/Caches/Microsoft Edge"@, "Library/Application Support/Microsoft Edge/Default/Cache"@]),
        ("arc_cache"@, "Arc — Cache"@, seq!["Library/Caches/company.thebrowser.Browser"@]),
        ("opera_cache"@, "Opera — Cache"@, seq!["Library/Caches/com.operasoftware.Opera"@, "Library/Application Support/com.operasoftware.Opera/Default/Cache"@]),
        ("operagx_cache"@, "Opera GX — Cache"@, seq!["Library/Caches/com.operasoftware.OperaGX"@, "Library/Application Support/com.operasoftware.OperaGX/Default/Cache"@]),
        ("vivaldi_cache"@, "Vivaldi — Cache"@, seq!["Library/Caches/com.vivaldi.Vivaldi"@, "Library/Application Support/Vivaldi/Default/Cache"@]),
        ("chromium_cache"@, "Chromium — Cache"@, seq!["Library/Caches/org.chromium.Chromium"@, "Library/Application Support/Chromium/Default/Cache"@]),
        ("orion_cache"@, "Orion — Cache"@, seq!["Library/Caches/com.kagi.kagimacOS"@, "Library/Application Support/Orion"@]),
        ("zen_cache"@, "Zen Browser — Cache"@, seq!["Library/Caches/app.zen-browser.zen"@, "Library/Application Support/Zen/Profiles"@]),
        ("recent_items"@, "macOS — Éléments récents"@, seq!["Library/Application Support/com.apple.sharedfilelist"@]),
    ]
}

/// A privacy data entry.
pub struct PrivacyRow {
    pub id: &'static str,
    pub label: &'static str,
    pub paths: Vec<&'static str>,
}

pub open spec fn privacy_row_view(r: PrivacyRow) -> (Seq<char>, Seq<char>, Seq<Seq<char>>) {
    (r.id@, r.label@, r.paths@.map_values(|s: &str| s@))
}

/// The privacy data a cleanup offers.
pub fn privacy_rows() -> (v: Vec<PrivacyRow>)
    ensures
        v@.map_values(|r: PrivacyRow| privacy_row_view(r)) == privacy_table(),
{
    let mut v: Vec<PrivacyRow> = Vec::new();
    let paths = vec!["Library/Safari/History.db"];
    assert(paths@.map_values(|s: &str| s@) =~= seq!["Library/Safari/History.db"@]);
    v.push(PrivacyRow { id: "safari_history", label: "Safari — Historique", paths });
    let paths = vec!["Library/Caches/com.apple.Safari"];
    assert(paths@.map_values(|s: &str| s@) =~= seq!["Library/Caches/com.apple.Safari"@]);
    v.push(PrivacyRow { id: "safari_cache", label: "Safari — Cache", paths });
    let paths = vec!["Library/Caches/Google/Chrome", "Library/Caches/com.google.Chrome", "Library/Application Support/Google/Chrome/Default/Cache"];
    assert(paths@.map_values(|s: &str| s@) =~= seq!["Library/Caches/Google/Chrome"@, "Library/Caches/com.google.Chrome"@, "Library/Application Support/Google/Chrome/Default/Cache"@]);
    v.push(PrivacyRow { id: "chrome_cache", label: "Chrome — Cache", paths });
    let paths = vec!["Library/Application Support/Google/Chrome/Default/History"];
    assert(paths@.map_values(|s: &str| s@) =~= seq!["Library/Application Support/Google/Chrome/Default/History"@]);
    v.push(PrivacyRow { id: "chrome_history", label: "Chrome — Historique", paths });
    let paths = vec!["Library/Caches/Firefox", "Library/Caches/org.mozilla.firefox"];
    assert(paths@.map_values(|s: &str| s@) =~= seq!["Library/Caches/Firefox"@, "Library/Caches/org.mozilla.firefox"@]);
    v.push(PrivacyRow { id: "firefox_cache", label: "Firefox — Cache", paths });
    let paths = vec!["Library/Caches/io.gitlab.librewolf-community", "Library/Application Support/librewolf/Profiles"];
    assert(paths@.map_values(|s: &str| s@) =~= seq!["Library/Caches/io.gitlab.librewolf-community"@, "Library/Application Support/librewolf/Profiles"@]);
    v.push(PrivacyRow { id: "librewolf_cache", label: "LibreWolf — Cache", paths });
    let paths = vec!["Library/Caches/net.waterfox.waterfox", "Library/Application Support/Waterfox/Profiles"];
    assert(paths@.map_values(|s: &str| s@) =~= seq!["Library/Caches/net.waterfox.waterfox"@, "Library/Application Support/Waterfox/Profiles"@]);
    v.push(PrivacyRow { id: "waterfox_cache", label: "Waterfox — Cache", paths });
    let paths = vec!["Library/Caches/org.mozilla.floorp", "Library/Application Support/Floorp/Profiles"];
    assert(paths@.map_values(|s: &str| s@) =~= seq!["Library/Caches/org.mozilla.floorp"@, "Library/Application Support/Floorp/Profiles"@]);
    v.push(PrivacyRow { id: "floorp_cache", label: "Floorp — Cache", paths });
    let paths = vec!["Library/Caches/net.mullvad.MullvadBrowser", "Library/Application Support/MullvadBrowser/Profiles"];
    assert(paths@.map_values(|s: &str| s@) =~= seq!["Library/Caches/net.mullvad.MullvadBrowser"@, "Library/Application Support/MullvadBrowser/Profiles"@]);
    v.push(PrivacyRow { id: "mullvad_cache", label: "Mullvad Browser — Cache", paths });
    let paths = vec!["Library/Application Support/TorBrowser-Data"];
    assert(paths@.map_values(|s: &str| s@) =~= seq!["Library/Application Support/TorBrowser-Data"@]);
    v.push(PrivacyRow { id: "tor_cache", label: "Tor Browser — Données", paths });
    let paths = vec!["Library/Caches/BraveSoftware/Brave-Browser", "Library/Caches/com.brave.Browser", "Library/Application Support/BraveSoftware/Brave-Browser/Default/Cache"];
    assert(paths@.map_values(|s: &str| s@) =~= seq!["Library/Caches/BraveSoftware/Brave-Browser"@, "Library/Caches/com.brave.Browser"@, "Library/Application Support/BraveSoftware/Brave-Browser/Default/Cache"@]);
    v.push(PrivacyRow { id: "brave_cache", label: "Brave — Cache", paths });
    let paths = vec!["Library/Caches/com.microsoft.edgemac", "Library/Caches/Microsoft Edge", "Library/Application Support/Microsoft Edge/Default/Cache"];
    assert(paths@.map_values(|s: &str| s@) =~= seq!["Library/Caches/com.microsoft.edgemac"@, "Library/Caches/Microsoft Edge"@, "Library/Application Support/Microsoft Edge/Default/Cache"@]);
    v.push(PrivacyRow { id: "edge_cache", label: "Edge — Cache", paths });
    let paths = vec!["Library/Caches/company.thebrowser.Browser"];
    assert(paths@.map_values(|s: &str| s@) =~= seq!["Library/Caches/company.thebrowser.Browser"@]);
    v.push(PrivacyRow { id: "arc_cache", label: "Arc — Cache", paths });
    let paths = vec!["Library/Caches/com.operasoftware.Opera", "Library/Application Support/com.operasoftware.Opera/Default/Cache"];
    assert(paths@.map_values(|s: &str| s@) =~= seq!["Library/Caches/com.operasoftware.Opera"@, "Library/Application Support/com.operasoftware.Opera/Default/Cache"@]);
    v.push(PrivacyRow { id: "opera_cache", label: "Opera — Cache", paths });
    let paths = vec!["Library/Caches/com.operasoftware.OperaGX", "Library/Application Support/com.operasoftware.OperaGX/Default/Cache"];
    assert(paths@.map_values(|s: &str| s@) =~= seq!["Library/Caches/com.operasoftware.OperaGX"@, "Library/Application Support/com.operasoftware.OperaGX/Default/Cache"@]);
    v.push(PrivacyRow { id: "operagx_cache", label: "Opera GX — Cache", paths });
    let paths = vec!["Library/Caches/com.vivaldi.Vivaldi", "Library/Application Support/Vivaldi/Default/Cache"];
    assert(paths@.map_values(|s: &str| s@) =~= seq!["Library/Caches/com.vivaldi.Vivaldi"@, "Library/Application Support/Vivaldi/Default/Cache"@]);
    v.push(PrivacyRow { id: "vivaldi_cache", label: "Vivaldi — Cache", paths });
    let paths = vec!["Library/Caches/org.chromium.Chromium", "Library/Application Support/Chromium/Default/Cache"];
    assert(paths@.map_values(|s: &str| s@) =~= seq!["Library/Caches/org.chromium.Chromium"@, "Library/Application Support/Chromium/Default/Cache"@]);
    v.push(PrivacyRow { id: "chromium_cache", label: "Chromium — Cache", paths });
    let paths = vec!["Library/Caches/com.kagi.kagimacOS", "Library/Application Support/Orion"];
    assert(paths@.map_values(|s: &str| s@) =~= seq!["Library/Caches/com.kagi.kagimacOS"@, "Library/Application Support/Orion"@]);
    v.push(PrivacyRow { id: "orion_cache", label: "Orion — Cache", paths });
    let paths = vec!["Library/Caches/app.zen-browser.zen", "Library/Application Support/Zen/Profiles"];
    assert(paths@.map_values(|s: &str| s@) =~= seq!["Library/Caches/app.zen-browser.zen"@, "Library/Application Support/Zen/Profiles"@]);
    v.push(PrivacyRow { id: "zen_cache", label: "Zen Browser — Cache", paths });
    let paths = vec!["Library/Application Support/com.apple.sharedfilelist"];
    assert(paths@.map_values(|s: &str| s@) =~= seq!["Library/Application Support/com.apple.sharedfilelist"@]);
    v.push(PrivacyRow { id: "recent_items", label: "macOS — Éléments récents", paths });
    assert(v@.map_values(|r: PrivacyRow| privacy_row_view(r)) =~= privacy_table());
    v
}


// ── Developer caches found on disk ──────────────────────────────────────────

/// A developer cache found on disk.
pub struct DevCache {
    pub id: String,
    pub name: String,
    pub description: String,
    pub path: String,
    pub size_bytes: u64,
    pub risk: u8,
    pub days_since_use: i64,
}

/// What a found cache shows: `(id, name, description, path, size, risk,
/// days since use)`.
pub type DevCacheView = (Seq<char>, Seq<char>, Seq<char>, Seq<char>, u64, u8, i64);

pub open spec fn dev_cache_view(c: DevCache) -> DevCacheView {
    (c.id@, c.name@, c.description@, c.path@, c.size_bytes, c.risk, c.days_since_use)
}

/// What was measured of catalogue entry `i`: `(size, days since use)` when
/// it exists (missing entries count as absent).
pub open spec fn measured(found: Seq<Option<(u64, i64)>>, i: int) -> Option<(u64, i64)> {
    if 0 <= i < found.len() {
        found[i]
    } else {
        None
    }
}

/// The caches among the first `k` catalogue entries that exist and are not
/// empty, in catalogue order.
pub open spec fn dev_caches_present(home: Seq<char>, found: Seq<Option<(u64, i64)>>, k: int) -> Seq<DevCacheView>
    decreases k,
{
    if k <= 0 {
        seq![]
    } else {
        let before = dev_caches_present(home, found, k - 1);
        let row = dev_cache_table()[k - 1];
        match measured(found, k - 1) {
            Some((size, days)) => if size > 0 {
                before.push((row.1, row.2, row.4, path_push(home, row.3), size, row.0, days))
            } else {
                before
            },
            None => before,
        }
    }
}

/// Where `x` goes in `s`, largest first: after every entry at least as large.
pub open spec fn insert_pos(s: Seq<DevCacheView>, size: u64, j: int) -> int
    decreases s.len() - j,
{
    if j < 0 || j >= s.len() {
        s.len() as int
    } else if s[j].4 < size {
        j
    } else {
        insert_pos(s, size, j + 1)
    }
}

/// `s` sorted by size, largest first, entries of equal size kept in order
/// (a stable sort).
pub open spec fn largest_first(s: Seq<DevCacheView>) -> Seq<DevCacheView>
    decreases s.len(),
{
    if s.len() == 0 {
        s
    } else {
        let r = largest_first(s.drop_last());
        r.insert(insert_pos(r, s.last().4, 0), s.last())
    }
}

/// The size measured of entry `i`, 0 when it is absent.
pub open spec fn measured_size(found: Seq<Option<(u64, i64)>>, i: int) -> u64 {
    match measured(found, i) {
        Some((size, _)) => size,
        None => 0,
    }
}

/// The days since use measured of entry `i`, 0 when it is absent.
pub open spec fn measured_days(found: Seq<Option<(u64, i64)>>, i: int) -> i64 {
    match measured(found, i) {
        Some((_, days)) => days,
        None => 0,
    }
}

proof fn lemma_insert_pos_facts(s: Seq<DevCacheView>, size: u64, j: int)
    requires
        0 <= j <= s.len(),
    ensures
        j <= insert_pos(s, size, j) <= s.len(),
        forall|k: int| j <= k < insert_pos(s, size, j) ==> s[k].4 >= size,
        insert_pos(s, size, j) < s.len() ==> s[insert_pos(s, size, j)].4 < size,
    decreases s.len() - j,
{
    if j < s.len() && !(s[j].4 < size) {
        lemma_insert_pos_facts(s, size, j + 1);
    }
}

/// Sorting the caches keeps exactly the caches given and puts none after a
/// smaller one.
proof fn lemma_largest_first(s: Seq<DevCacheView>)
    ensures
        forall|i: int, j: int| 0 <= i < j < largest_first(s).len() ==> largest_first(s)[i].4 >= largest_first(s)[j].4,
        largest_first(s).to_multiset() == s.to_multiset(),
    decreases s.len(),
{
    broadcast use vstd::seq_lib::group_to_multiset_ensures;

    if s.len() == 0 {
        assert(s.to_multiset() =~= vstd::multiset::Multiset::empty());
        assert(largest_first(s).to_multiset() =~= vstd::multiset::Multiset::empty());
    } else {
        let r = largest_first(s.drop_last());
        lemma_largest_first(s.drop_last());
        let x = s.last();
        lemma_insert_pos_facts(r, x.4, 0);
        let p = insert_pos(r, x.4, 0);
        let t = r.insert(p, x);
        assert forall|i: int, j: int| 0 <= i < j < t.len() implies t[i].4 >= t[j].4 by {
            if j < p {
                assert(t[i] == r[i] && t[j] == r[j]);
            } else if j == p {
                assert(t[i] == r[i]);
            } else if i < p {
                assert(t[i] == r[i] && t[j] == r[j - 1]);
                if p < r.len() {
                    assert(r[p].4 < x.4);
                }
            } else if i == p {
                assert(t[j] == r[j - 1]);
                assert(r[j - 1].4 <= r[p].4 || j - 1 == p);
            } else {
                assert(t[i] == r[i - 1] && t[j] == r[j - 1]);
            }
        }
        vstd::seq_lib::to_multiset_insert(r, p, x);
        vstd::seq_lib::to_multiset_build(s.drop_last(), x);
        assert(s.drop_last().push(x) =~= s);
    }
}

/// Catalogue entry `i` shown as the cache `e`: its id, name, description and
/// risk, the home joined with its sub-path, and what was measured of it.
pub open spec fn shows_entry(home: Seq<char>, found: Seq<Option<(u64, i64)>>, i: int, e: DevCacheView) -> bool {
    let t = dev_cache_table();
    &&& 0 <= i < t.len()
    &&& measured(found, i) == Some((e.4, e.6))
    &&& e.4 > 0
    &&& e.0 == t[i].1
    &&& e.1 == t[i].2
    &&& e.2 == t[i].4
    &&& e.3 == path_push(home, t[i].3)
    &&& e.5 == t[i].0
}

/// The cache `e` is how one of the first `k` catalogue entries is shown.
pub open spec fn from_catalogue_row(home: Seq<char>, found: Seq<Option<(u64, i64)>>, k: int, e: DevCacheView) -> bool {
    exists|i: int| 0 <= i < k && #[trigger] shows_entry(home, found, i, e)
}

proof fn lemma_present_entries(home: Seq<char>, found: Seq<Option<(u64, i64)>>, k: int)
    requires
        0 <= k <= dev_cache_table().len(),
    ensures
        forall|a: int|
            0 <= a < dev_caches_present(home, found, k).len() ==> from_catalogue_row(
                home,
                found,
                k,
                #[trigger] dev_caches_present(home, found, k)[a],
            ),
        forall|i: int|
            0 <= i < k && #[trigger] measured(found, i) is Some && measured_size(found, i) > 0 ==> {
                let t = dev_cache_table();
                dev_caches_present(home, found, k).contains(
                    (t[i].1, t[i].2, t[i].4, path_push(home, t[i].3), measured_size(found, i), t[i].0, measured_days(found, i)),
                )
            },
    decreases k,
{
    if k > 0 {
        lemma_present_entries(home, found, k - 1);
        let before = dev_caches_present(home, found, k - 1);
        let now = dev_caches_present(home, found, k);
        let t = dev_cache_table();
        let i = k - 1;
        let pushed = measured(found, i) is Some && measured_size(found, i) > 0;
        let e = (t[i].1, t[i].2, t[i].4, path_push(home, t[i].3), measured_size(found, i), t[i].0, measured_days(found, i));
        if pushed {
            assert(now == before.push(e));
            assert(shows_entry(home, found, i, e));
        } else {
            assert(now == before);
        }
        assert forall|a: int|
            0 <= a < dev_caches_present(home, found, k).len() implies from_catalogue_row(
                home,
                found,
                k,
                #[trigger] dev_caches_present(home, found, k)[a],
            ) by {
            if a < before.len() {
                assert(now[a] == before[a]);
                assert(from_catalogue_row(home, found, k - 1, dev_caches_present(home, found, k - 1)[a]));
                let j = choose|j: int|
                    0 <= j < k - 1 && #[trigger] shows_entry(home, found, j, dev_caches_present(home, found, k - 1)[a]);
                assert(shows_entry(home, found, j, dev_caches_present(home, found, k)[a]));
            } else {
                assert(now[a] == e);
                assert(shows_entry(home, found, i, dev_caches_present(home, found, k)[a]));
            }
        }
        assert forall|j: int|
            0 <= j < k && #[trigger] measured(found, j) is Some && measured_size(found, j) > 0 implies now.contains(
                (t[j].1, t[j].2, t[j].4, path_push(home, t[j].3), measured_size(found, j), t[j].0, measured_days(found, j)),
            ) by {
            let ej = (t[j].1, t[j].2, t[j].4, path_push(home, t[j].3), measured_size(found, j), t[j].0, measured_days(found, j));
            if j < k - 1 {
                assert(before.contains(ej));
                let a = choose|a: int| 0 <= a < before.len() && before[a] == ej;
                assert(now[a] == ej);
            } else {
                assert(now[before.len() as int] == ej);
            }
        }
    }
}

/// Law: the caches reported come largest first; each is a catalogue entry
/// measured non-empty, shown with that entry's id, name, description and
/// risk, found at the home joined with the entry's own sub-path, with the
/// size and age measured; and every entry measured non-empty is reported so.
pub proof fn law_dev_caches_reported(home: Seq<char>, found: Seq<Option<(u64, i64)>>)
    ensures
        ({
            let t = dev_cache_table();
            let r = largest_first(dev_caches_present(home, found, t.len() as int));
            &&& forall|a: int, b: int| 0 <= a < b < r.len() ==> r[a].4 >= r[b].4
            &&& forall|a: int| 0 <= a < r.len() ==> from_catalogue_row(home, found, t.len() as int, #[trigger] r[a])
            &&& forall|i: int|
                0 <= i < t.len() && #[trigger] measured(found, i) is Some && measured_size(found, i) > 0
                    ==> r.contains(
                    (
                        t[i].1,
                        t[i].2,
                        t[i].4,
                        path_push(home, t[i].3),
                        measured_size(found, i),
                        t[i].0,
                        measured_days(found, i),
                    ),
                )
        }),
{
    broadcast use vstd::seq_lib::group_to_multiset_ensures;

    let t = dev_cache_table();
    let present = dev_caches_present(home, found, t.len() as int);
    let r = largest_first(present);
    lemma_present_entries(home, found, t.len() as int);
    lemma_largest_first(present);
    assert forall|a: int| 0 <= a < r.len() implies from_catalogue_row(home, found, t.len() as int, #[trigger] r[a]) by {
        assert(r.to_multiset().count(r[a]) > 0);
        assert(present.contains(r[a]));
        let b = choose|b: int| 0 <= b < present.len() && present[b] == r[a];
        assert(from_catalogue_row(home, found, t.len() as int, present[b]));
    }
    assert forall|i: int|
        0 <= i < t.len() && #[trigger] measured(found, i) is Some && measured_size(found, i) > 0 implies r.contains(
        (t[i].1, t[i].2, t[i].4, path_push(home, t[i].3), measured_size(found, i), t[i].0, measured_days(found, i)),
    ) by {
        let e = (t[i].1, t[i].2, t[i].4, path_push(home, t[i].3), measured_size(found, i), t[i].0, measured_days(found, i));
        assert(present.contains(e));
        assert(present.to_multiset().count(e) > 0);
    }
}

/// The developer caches present under `home`, largest first, given what
/// was measured of each catalogue entry.
pub fn dev_caches_found(home: &str, found: &[Option<(u64, i64)>]) -> (r: Vec<DevCache>)
    ensures
        r@.map_values(|c: DevCache| dev_cache_view(c)) == largest_first(
            dev_caches_present(home@, found@, dev_cache_table().len() as int),
        ),
{
    let rows = dev_cache_rows();
    let ghost table = dev_cache_table();
    assert(rows@.len() == table.len()) by {
        assert(rows@.map_values(|r: DevCacheRow| dev_row_view(r)).len() == rows@.len());
    }
    let mut out: Vec<DevCache> = Vec::new();
    let ghost mut present: Seq<DevCacheView> = seq![];
    let mut i: usize = 0;
    while i < rows.len()
        invariant
            rows@.map_values(|r: DevCacheRow| dev_row_view(r)) == table,
            table == dev_cache_table(),
            rows@.len() == table.len(),
            i <= rows@.len(),
            present == dev_caches_present(home@, found@, i as int),
            out@.map_values(|c: DevCache| dev_cache_view(c)) == largest_first(present),
        decreases rows@.len() - i,
    {
        let row = rows[i];
        assert(dev_row_view(row) == table[i as int]);
        let m: Option<(u64, i64)> = if i < found.len() { found[i] } else { None };
        assert(m == measured(found@, i as int));
        match m {
            Some((size, days)) => {
                if size > 0 {
                    let mut id = String::new();
                    push_str(&mut id, row.1);
                    let mut name = String::new();
                    push_str(&mut name, row.2);
                    let mut description = String::new();
                    push_str(&mut description, row.4);
                    let path = path_join(home, row.3);
                    let c = DevCache { id, name, description, path, size_bytes: size, risk: row.0, days_since_use: days };
                    let ghost cv = dev_cache_view(c);
                    assert(cv == (row.1@, row.2@, row.4@, path_push(home@, row.3@), size, row.0, days)) by {
                        assert(c.id@ =~= row.1@);
                        assert(c.name@ =~= row.2@);
                        assert(c.description@ =~= row.4@);
                    }
                    let ghost sorted = largest_first(present);
                    // Find where it goes.
                    let mut j: usize = 0;
                    while j < out.len() && out[j].size_bytes >= size
                        invariant
                            out@.map_values(|c: DevCache| dev_cache_view(c)) == sorted,
                            j <= out@.len(),
                            insert_pos(sorted, size, 0) == insert_pos(sorted, size, j as int),
                        decreases out@.len() - j,
                    {
                        assert(sorted[j as int].4 == out@[j as int].size_bytes);
                        j += 1;
                    }
                    proof {
                        if j < out@.len() {
                            assert(sorted[j as int].4 == out@[j as int].size_bytes);
                        }
                    }
                    out.insert(j, c);
                    proof {
                        present = present.push(cv);
                        assert(present.drop_last() =~= dev_caches_present(home@, found@, i as int));
                        assert(out@.map_values(|c: DevCache| dev_cache_view(c)) =~= sorted.insert(j as int, cv));
                    }
                }
            },
            None => {},
        }
        i += 1;
    }
    out
}

// ── Privacy data found on disk ──────────────────────────────────────────────

/// The locations of each privacy entry under `home`.
pub open spec fn privacy_locations(home: Seq<char>, i: int) -> Seq<Seq<char>> {
    privacy_table()[i].2.map_values(|rel: Seq<char>| path_push(home, rel))
}

/// The locations of every privacy entry under `home`, for the caller to
/// check which exist.
pub fn privacy_item_paths(home: &str) -> (r: Vec<Vec<String>>)
    ensures
        r@.len() == privacy_table().len(),
        forall|i: int| 0 <= i < r@.len() ==> #[trigger] r@[i].deep_view() == privacy_locations(home@, i),
{
    let rows = privacy_rows();
    let ghost table = privacy_table();
    assert(rows@.len() == table.len()) by {
        assert(rows@.map_values(|r: PrivacyRow| privacy_row_view(r)).len() == rows@.len());
    }
    let mut out: Vec<Vec<String>> = Vec::new();
    let mut i: usize = 0;
    while i < rows.len()
        invariant
            rows@.map_values(|r: PrivacyRow| privacy_row_view(r)) == table,
            table == privacy_table(),
            rows@.len() == table.len(),
            i <= rows@.len(),
            out@.len() == i,
            forall|k: int| 0 <= k < i ==> #[trigger] out@[k].deep_view() == privacy_locations(home@, k),
        decreases rows@.len() - i,
    {
        let row = &rows[i];
        assert(privacy_row_view(*row) == table[i as int]);
        let mut ps: Vec<String> = Vec::new();
        let mut j: usize = 0;
        while j < row.paths.len()
            invariant
                i < table.len(),
                privacy_row_view(*row) == table[i as int],
                j <= row.paths@.len(),
                ps.deep_view() == row.paths@.take(j as int).map_values(|rel: &str| path_push(home@, rel@)),
            decreases row.paths@.len() - j,
        {
            let p = path_join(home, row.paths[j]);
            let ghost before = ps.deep_view();
            ps.push(p);
            assert(ps.deep_view() =~= before.push(p@));
            assert(row.paths@.take(j + 1) =~= row.paths@.take(j as int).push(row.paths@[j as int]));
            assert(ps.deep_view() =~= row.paths@.take(j + 1).map_values(|rel: &str| path_push(home@, rel@)));
            j += 1;
        }
        assert(ps.deep_view() =~= privacy_locations(home@, i as int)) by {
            assert(row.paths@.take(row.paths@.len() as int) =~= row.paths@);
        }
        out.push(ps);
        i += 1;
    }
    out
}

/// The first of `locs` that exists (`exists` telling which do), if any.
pub open spec fn first_existing(exists: Seq<bool>, n: int, j: int) -> Option<int>
    decreases n - j,
{
    if j < 0 || j >= n {
        None
    } else if j < exists.len() && exists[j] {
        Some(j)
    } else {
        first_existing(exists, n, j + 1)
    }
}

/// The privacy entries present, in catalogue order, among the first `k`:
/// `(id, label, the first of its locations that exists)`.
pub open spec fn privacy_present(home: Seq<char>, exists: Seq<Seq<bool>>, k: int) -> Seq<(Seq<char>, Seq<char>, Seq<char>)>
    decreases k,
{
    if k <= 0 {
        seq![]
    } else {
        let before = privacy_present(home, exists, k - 1);
        let row = privacy_table()[k - 1];
        let ex: Seq<bool> = if k - 1 < exists.len() { exists[k - 1] } else { seq![] };
        match first_existing(ex, row.2.len() as int, 0) {
            Some(j) => before.push((row.0, row.1, path_push(home, row.2[j]))),
            None => before,
        }
    }
}

/// The privacy data present under `home`; `exists[i][j]` tells whether the
/// `j`-th location of entry `i` exists (missing flags count as absent).
pub fn resolve_privacy_items(home: &str, exists: &Vec<Vec<bool>>) -> (r: Vec<(String, String, String)>)
    ensures
        r@.map_values(|t: (String, String, String)| (t.0@, t.1@, t.2@)) == privacy_present(
            home@,
            exists@.map_values(|v: Vec<bool>| v@),
            privacy_table().len() as int,
        ),
{
    let rows = privacy_rows();
    let ghost table = privacy_table();
    let ghost ev = exists@.map_values(|v: Vec<bool>| v@);
    assert(rows@.len() == table.len()) by {
        assert(rows@.map_values(|r: PrivacyRow| privacy_row_view(r)).len() == rows@.len());
    }
    let mut out: Vec<(String, String, String)> = Vec::new();
    let mut i: usize = 0;
    while i < rows.len()
        invariant
            rows@.map_values(|r: PrivacyRow| privacy_row_view(r)) == table,
            table == privacy_table(),
            rows@.len() == table.len(),
            ev == exists@.map_values(|v: Vec<bool>| v@),
            i <= rows@.len(),
            out@.map_values(|t: (String, String, String)| (t.0@, t.1@, t.2@)) == privacy_present(home@, ev, i as int),
        decreases rows@.len() - i,
    {
        let row = &rows[i];
        assert(privacy_row_view(*row) == table[i as int]);
        let n = row.paths.len();
        let ghost ex: Seq<bool> = if i < ev.len() { ev[i as int] } else { seq![] };
        let mut j: usize = 0;
        let mut hit: Option<usize> = None;
        while j < n && hit.is_none()
            invariant
                n == row.paths@.len(),
                privacy_row_view(*row) == table[i as int],
                ev == exists@.map_values(|v: Vec<bool>| v@),
                ex == if i < ev.len() { ev[i as int] } else { seq![] },
                j <= n,
                match hit {
                    Some(h) => first_existing(ex, n as int, 0) == Some(h as int) && h < n,
                    None => first_existing(ex, n as int, 0) == first_existing(ex, n as int, j as int),
                },
            decreases n - j,
        {
            let e = i < exists.len() && j < exists[i].len() && exists[i][j];
            assert(e == (j < ex.len() && ex[j as int]));
            if e {
                hit = Some(j);
            }
            j += 1;
        }
        match hit {
            Some(h) => {
                let mut id = String::new();
                push_str(&mut id, row.id);
                let mut label = String::new();
                push_str(&mut label, row.label);
                let path = path_join(home, row.paths[h]);
                let ghost before = out@.map_values(|t: (String, String, String)| (t.0@, t.1@, t.2@));
                out.push((id, label, path));
                assert(out@.map_values(|t: (String, String, String)| (t.0@, t.1@, t.2@)) =~= before.push(
                    (row.id@, row.label@, path_push(home@, row.paths@[h as int]@)),
                ));
            },
            None => {},
        }
        i += 1;
    }
    out
}


/// The flags of entry `i`, or none where they are missing.
pub open spec fn privacy_flags(present: Seq<Seq<bool>>, i: int) -> Seq<bool> {
    if 0 <= i < present.len() {
        present[i]
    } else {
        seq![]
    }
}

/// The catalogue rows among the first `k` that have a location present.
pub open spec fn privacy_present_rows(present: Seq<Seq<bool>>, k: int) -> Seq<int>
    decreases k,
{
    if k <= 0 {
        seq![]
    } else {
        let before = privacy_present_rows(present, k - 1);
        if first_existing(privacy_flags(present, k - 1), privacy_table()[k - 1].2.len() as int, 0) is Some {
            before.push(k - 1)
        } else {
            before
        }
    }
}

proof fn lemma_first_existing(ex: Seq<bool>, n: int, j: int)
    requires
        0 <= j,
    ensures
        first_existing(ex, n, j) matches Some(t) ==> j <= t < n && t < ex.len() && ex[t],
        (forall|t: int| 0 <= t < ex.len() ==> !#[trigger] ex[t]) ==> first_existing(ex, n, j) is None,
    decreases n - j,
{
    if j < n {
        lemma_first_existing(ex, n, j + 1);
    }
}

/// The privacy listing follows the catalogue: entry `a` of the answer is the
/// catalogue row `rows[a]`, rows strictly increasing, with its id, its label
/// and the first of its locations that is present; a row is listed exactly
/// when one of its locations is present. With nothing present, nothing is
/// listed.
pub proof fn law_privacy_listing_order(home: Seq<char>, present: Seq<Seq<bool>>, k: int)
    requires
        0 <= k <= privacy_table().len(),
    ensures
        ({
            let r = privacy_present(home, present, k);
            let rows = privacy_present_rows(present, k);
            &&& r.len() == rows.len()
            &&& forall|a: int, b: int| 0 <= a < b < rows.len() ==> rows[a] < rows[b]
            &&& forall|a: int|
                #![trigger rows[a]]
                0 <= a < rows.len() ==> {
                    let i = rows[a];
                    let row = privacy_table()[i];
                    &&& 0 <= i < k
                    &&& first_existing(privacy_flags(present, i), row.2.len() as int, 0) matches Some(j)
                        && 0 <= j < row.2.len() && privacy_flags(present, i)[j]
                        && r[a] == (row.0, row.1, path_push(home, row.2[j]))
                }
            &&& forall|i: int|
                0 <= i < k ==> (rows.contains(i) <==> first_existing(
                    privacy_flags(present, i),
                    privacy_table()[i].2.len() as int,
                    0,
                ) is Some)
        }),
        (forall|i: int, j: int| 0 <= i < present.len() && 0 <= j < present[i].len() ==> !present[i][j])
            ==> privacy_present(home, present, k) == Seq::<(Seq<char>, Seq<char>, Seq<char>)>::empty(),
    decreases k,
{
    if k > 0 {
        law_privacy_listing_order(home, present, k - 1);
        let i = k - 1;
        let row = privacy_table()[i];
        let ex = privacy_flags(present, i);
        let ex2: Seq<bool> = if i < present.len() { present[i] } else { seq![] };
        assert(ex == ex2);
        lemma_first_existing(ex, row.2.len() as int, 0);
        let prev = privacy_present_rows(present, k - 1);
        let rows = privacy_present_rows(present, k);
        assert forall|t: int| 0 <= t < k - 1 implies (rows.contains(t) <==> prev.contains(t)) by {
            if first_existing(ex, row.2.len() as int, 0) is Some {
                assert(rows == prev.push(i));
                if prev.contains(t) {
                    let a = choose|a: int| 0 <= a < prev.len() && prev[a] == t;
                    assert(rows[a] == t);
                }
                if rows.contains(t) {
                    let a = choose|a: int| 0 <= a < rows.len() && rows[a] == t;
                    assert(a < prev.len());
                    assert(prev[a] == t);
                }
            }
        }
        if first_existing(ex, row.2.len() as int, 0) is Some {
            assert(rows[prev.len() as int] == i);
            assert(rows.contains(i));
        } else {
            assert forall|a: int| 0 <= a < prev.len() implies prev[a] != i by {}
            assert(!rows.contains(i));
        }
        if forall|i: int, j: int| 0 <= i < present.len() && 0 <= j < present[i].len() ==> !present[i][j] {
            assert forall|t: int| 0 <= t < ex.len() implies !#[trigger] ex[t] by {}
        }
    }
}

// ── Privacy items found ─────────────────────────────────────────────────────

/// Browsing data found on disk, with the space it takes.
pub struct PrivacyItem {
    pub id: String,
    pub label: String,
    pub path: String,
    pub size_bytes: u64,
}

/// The space an item takes: for a folder, `du`'s MiB in bytes (at most
/// `u64::MAX`); for a file, its length.
pub open spec fn privacy_size(is_dir: bool, du_mb: u64, file_len: u64) -> u64 {
    if is_dir {
        if du_mb * 1_048_576 > u64::MAX {
            u64::MAX
        } else {
            (du_mb * 1_048_576) as u64
        }
    } else {
        file_len
    }
}

/// The space an item takes.
pub fn privacy_item_size(is_dir: bool, du_mb: u64, file_len: u64) -> (r: u64)
    ensures
        r == privacy_size(is_dir, du_mb, file_len),
{
    if is_dir {
        if du_mb > u64::MAX / 1_048_576 {
            u64::MAX
        } else {
            du_mb * 1_048_576
        }
    } else {
        file_len
    }
}

/// A resolved item with its measurements; nothing when it takes no space.
pub fn privacy_item(id: String, label: String, path: String, is_dir: bool, du_mb: u64, file_len: u64) -> (r: Option<PrivacyItem>)
    ensures
        privacy_size(is_dir, du_mb, file_len) == 0 ==> r is None,
        privacy_size(is_dir, du_mb, file_len) > 0 ==> r == Some(
            PrivacyItem { id, label, path, size_bytes: privacy_size(is_dir, du_mb, file_len) },
        ),
{
    let size_bytes = privacy_item_size(is_dir, du_mb, file_len);
    if size_bytes == 0 {
        None
    } else {
        Some(PrivacyItem { id, label, path, size_bytes })
    }
}

} // verus!
