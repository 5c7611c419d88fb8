//! The fixed text of the HTML report page, in the pieces that lie between
//! its figures.

use vstd::prelude::*;

verus! {

/// The document type declaration that opens the page.
pub const PAGE_DOCTYPE: &'static str = "<!DOCTYPE html>";

/// The document head, its styles and the opening of the hero panel, up to the headline.
pub const PAGE_HEAD: &'static str = "
<html lang=\"zh-CN\">
<head>
  <meta charset=\"utf-8\">
  <meta name=\"viewport\" content=\"width=device-width, initial-scale=1\">
  <title>maleme report</title>
  <script src=\"https://cdnjs.cloudflare.com/ajax/libs/wordcloud2.js/1.2.3/wordcloud2.min.js\"></script>
  <style>
    :root {
      color-scheme: light;
      --bg: #eff8ff;
      --bg-accent: #fff4d6;
      --panel: rgba(255, 255, 255, 0.92);
      --panel-strong: #ffffff;
      --muted: #5e6b78;
      --text: #14212b;
      --line: #ff5a5f;
      --line-soft: rgba(255, 90, 95, 0.16);
      --accent: #00a6a6;
      --accent-warm: #ffb703;
      --accent-pink: #ff6f91;
      --border: #cfe1eb;
      --shadow: 0 18px 44px rgba(20, 33, 43, 0.1);
    }
    * { box-sizing: border-box; }
    body {
      margin: 0;
      font-family: -apple-system, BlinkMacSystemFont, \"Segoe UI\", sans-serif;
      background:
        radial-gradient(circle at top left, rgba(255, 183, 3, 0.28), transparent 24%),
        radial-gradient(circle at top right, rgba(255, 111, 145, 0.24), transparent 24%),
        linear-gradient(180deg, var(--bg) 0%, var(--bg-accent) 100%);
      color: var(--text);
      height: 100vh;
      overflow: hidden;
    }
    .page {
      position: relative;
      z-index: 1;
      max-width: 1320px;
      margin: 0 auto;
      height: 100vh;
      padding: 18px 18px 20px;
      display: grid;
      grid-template-rows: auto minmax(0, 1fr);
      gap: 16px;
      overflow: hidden;
    }
    .hero {
      display: grid;
      grid-template-columns: minmax(0, 1.8fr) minmax(260px, 0.8fr);
      gap: 16px;
      align-items: stretch;
      min-height: 0;
    }
    .panel {
      background: var(--panel);
      border: 1px solid var(--border);
      border-radius: 8px;
      padding: 16px;
      box-shadow: var(--shadow);
      backdrop-filter: blur(12px);
      min-height: 0;
    }
    .hero-main {
      position: relative;
      overflow: hidden;
      background:
        linear-gradient(135deg, rgba(255, 255, 255, 0.98), rgba(255, 247, 229, 0.98));
    }
    .hero-main::before {
      content: \"\";
      position: absolute;
      inset: 0 auto auto 0;
      width: 180px;
      height: 180px;
      background: radial-gradient(circle, rgba(255, 183, 3, 0.35), transparent 70%);
      transform: translate(-30%, -30%);
    }
    .hero-main::after {
      content: \"\";
      position: absolute;
      inset: auto 0 0 auto;
      width: 200px;
      height: 200px;
      background: radial-gradient(circle, rgba(0, 166, 166, 0.22), transparent 70%);
      transform: translate(30%, 30%);
    }
    .headline-wrap {
      position: relative;
      z-index: 3;
    }
    .fireworks {
      position: absolute;
      inset: 0;
      width: 100%;
      height: 100%;
      pointer-events: none;
      z-index: 2;
    }
    h1 {
      margin: 0;
      font-size: 48px;
      line-height: 0.98;
      font-weight: 900;
      max-width: 13ch;
      text-wrap: balance;
      animation: headline-pop 2.4s ease-in-out infinite;
    }
    .headline-count {
      color: #e11919;
      text-shadow: 0 10px 22px rgba(225, 25, 25, 0.18);
    }
    h2 {
      margin: 0 0 14px;
      font-size: 20px;
      line-height: 1.2;
    }
    .subtle {
      color: var(--muted);
      font-size: 14px;
      line-height: 1.5;
    }
    .meta {
      display: flex;
      flex-wrap: wrap;
      gap: 10px;
      margin-top: 14px;
      margin-bottom: 14px;
    }
    .meta-item {
      padding: 10px 12px;
      border-radius: 8px;
      background: rgba(255, 255, 255, 0.84);
      border: 1px solid rgba(207, 225, 235, 0.9);
      min-width: 132px;
    }
    .meta-label {
      color: var(--muted);
      font-size: 12px;
      margin-bottom: 6px;
    }
    .meta-value {
      font-size: 22px;
      font-weight: 700;
      font-variant-numeric: tabular-nums;
    }
    .submit-form {
      position: relative;
      z-index: 3;
      margin-top: 6px;
    }
    .submit-button {
      height: 48px;
      border: 0;
      border-radius: 8px;
      padding: 0 18px;
      font: inherit;
      font-size: 15px;
      font-weight: 900;
      color: #ffffff;
      background: linear-gradient(135deg, #ff5a5f, #ff7f50);
      box-shadow: 0 16px 28px rgba(255, 90, 95, 0.24);
      cursor: pointer;
    }
    .submit-button:hover {
      transform: translateY(-1px);
    }
    .sbai-card {
      display: flex;
      flex-direction: column;
      justify-content: space-between;
      min-height: 100%;
      background:
        linear-gradient(180deg, rgba(255, 255, 255, 0.98), rgba(229, 248, 248, 0.98));
    }
    .sbai-label {
      color: #0b7d7d;
      font-size: 13px;
      text-transform: uppercase;
      letter-spacing: 0.08em;
      font-weight: 800;
    }
    .sbai-value {
      font-size: 92px;
      line-height: 0.88;
      font-weight: 800;
      margin: 8px 0 6px;
      color: #0b7d7d;
      font-variant-numeric: tabular-nums;
    }
    .layout {
      display: grid;
      grid-template-columns: minmax(0, 0.78fr) minmax(0, 1.22fr);
      gap: 16px;
      min-height: 0;
      align-items: stretch;
    }
    .viz-panel {
      display: grid;
      grid-template-rows: auto minmax(0, 1fr);
      min-height: 0;
    }
    .chart-panel {
      min-width: 0;
    }
    .cloud-panel {
      min-width: 0;
    }
    .chart-wrap {
      width: 100%;
      height: 100%;
      min-height: 0;
      overflow: hidden;
    }
    .cloud {
      position: relative;
      display: flex;
      align-items: center;
      justify-content: center;
      width: 100%;
      height: 100%;
      min-height: 0;
      overflow: hidden;
    }
    .cloud-canvas {
      width: 100%;
      height: 100%;
      min-height: 0;
      max-height: none;
    }
    .cloud-fallback {
      display: none;
    }
    .empty {
      color: var(--muted);
      font-size: 16px;
      padding: 32px 0;
    }
    @keyframes headline-pop {
      0%, 100% {
        transform: translateY(0) scale(1);
        text-shadow: 0 0 0 rgba(255, 183, 3, 0);
      }
      50% {
        transform: translateY(-2px) scale(1.01);
        text-shadow: 0 10px 18px rgba(255, 183, 3, 0.26);
      }
    }
    .chart-line {
      stroke-dasharray: 1600;
      stroke-dashoffset: 1600;
      animation: line-draw 1.4s ease-out forwards;
    }
    .chart-fill {
      opacity: 0;
      animation: fade-fill 1.2s ease-out 0.2s forwards;
    }
    .chart-dot {
      opacity: 0;
      transform-origin: center;
      animation: dot-pop 0.35s ease-out forwards;
    }
    @keyframes line-draw {
      to { stroke-dashoffset: 0; }
    }
    @keyframes fade-fill {
      to { opacity: 1; }
    }
    @keyframes dot-pop {
      0% {
        opacity: 0;
        transform: scale(0.4);
      }
      100% {
        opacity: 1;
        transform: scale(1);
      }
    }
    @media (max-width: 900px) {
      body { height: auto; overflow: auto; }
      .page { height: auto; padding: 16px; overflow: visible; }
      .hero { grid-template-columns: 1fr; }
      .layout { grid-template-columns: 1fr; }
      h1 { font-size: 42px; max-width: 100%; }
      .sbai-value { font-size: 68px; }
    }
  </style>
</head>
<body>
  <div class=\"page\">
    <section class=\"hero\">
      <div class=\"panel hero-main\">
        <canvas id=\"fireworks\" class=\"fireworks\"></canvas>
        <div class=\"headline-wrap\">
        ";

/// The opening tag of the headline.
pub const HEADLINE_OPEN: &'static str = "<h1>";

/// The closing tag of the headline.
pub const HEADLINE_CLOSE: &'static str = "</h1>";

/// Between the headline and the number of chat messages.
pub const PAGE_AFTER_HEADLINE: &'static str = "
        <div class=\"meta\">
          <div class=\"meta-item\">
            <div class=\"meta-label\">聊天输入</div>
            <div class=\"meta-value number-roll\" data-target-number=\"";

/// Between the number of chat messages and the number of profanities.
pub const PAGE_AFTER_MESSAGE_COUNT: &'static str = "\" data-decimals=\"0\">0</div>
          </div>
          <div class=\"meta-item\">
            <div class=\"meta-label\">脏话次数</div>
            <div class=\"meta-value number-roll\" data-target-number=\"";

/// Between the number of profanities and the number of tokens.
pub const PAGE_AFTER_PROFANITIES: &'static str = "\" data-decimals=\"0\">0</div>
          </div>
          <div class=\"meta-item\">
            <div class=\"meta-label\">总 Tokens</div>
            <div class=\"meta-value number-roll\" data-target-number=\"";

/// Between the number of tokens and the form's submit endpoint.
pub const PAGE_AFTER_TOKENS: &'static str = "\" data-decimals=\"0\">0</div>
          </div>
        </div>
        <form class=\"submit-form\" method=\"post\" action=\"";

/// Between the submit endpoint and the form's profanity field value.
pub const PAGE_AFTER_SUBMIT_ENDPOINT: &'static str = "\">
          <input type=\"hidden\" name=\"profanityCount\" value=\"";

/// Between the form's profanity value and its token value.
pub const PAGE_AFTER_FORM_PROFANITIES: &'static str = "\">
          <input type=\"hidden\" name=\"tokens\" value=\"";

/// Between the form's token value and its SBAI field.
pub const PAGE_AFTER_FORM_TOKENS: &'static str = "\">
          <input type=\"hidden\" ";

/// The form's SBAI field, up to its value.
pub const SBAI_FIELD_OPEN: &'static str = "name=\"sbai\" value=\"";

/// The end of the SBAI field's value.
pub const SBAI_FIELD_CLOSE: &'static str = "\"";

/// Between the form's SBAI field and the SBAI card's value.
pub const PAGE_AFTER_FORM_SBAI: &'static str = ">
          <button type=\"submit\" class=\"submit-button\">提交到 leaderboard 看看你有多能骂！</button>
        </form>
        </div>
      </div>
      <div class=\"panel sbai-card\">
        <div>
          <div class=\"sbai-label\">SBAI 指数</div>
          <div class=\"sbai-value number-roll\" data-target-number=\"";

/// Between the SBAI card and the daily chart.
pub const PAGE_AFTER_SBAI: &'static str = "\" data-decimals=\"2\">0.00</div>
        </div>
        <div class=\"subtle\">每千万 tokens 的骂人次数</div>
      </div>
    </section>

    <section class=\"layout\">
      <div class=\"panel viz-panel chart-panel\">
        <h2>你这一天骂了 AI 多少次！</h2>
        <div class=\"chart-wrap\">";

/// Between the daily chart and the word cloud.
pub const PAGE_AFTER_CHART: &'static str = "</div>
      </div>

      <div class=\"panel viz-panel cloud-panel\">
        <h2>你最喜欢这么骂！</h2>
        ";

/// The closing markup and the page script, after the word cloud.
pub const PAGE_TAIL: &'static str = "
      </div>
    </section>
  </div>
  <script>
    (() => {
      const canvas = document.getElementById(\"fireworks\");
      const host = canvas.parentElement;
      const ctx = canvas.getContext(\"2d\");
      const particles = [];
      const palette = ['#ff5a5f', '#00a6a6', '#ffb703', '#ff6f91', '#5bc0eb'];

      function resize() {
        const rect = host.getBoundingClientRect();
        const dpr = window.devicePixelRatio || 1;
        canvas.width = rect.width * dpr;
        canvas.height = rect.height * dpr;
        canvas.style.width = rect.width + \"px\";
        canvas.style.height = rect.height + \"px\";
        ctx.setTransform(dpr, 0, 0, dpr, 0, 0);
      }

      function burst() {
        const rect = host.getBoundingClientRect();
        const x = 60 + Math.random() * Math.max(rect.width - 120, 60);
        const y = 30 + Math.random() * Math.min(rect.height * 0.5, 180);
        const count = 54;
        for (let i = 0; i < count; i += 1) {
          const angle = (Math.PI * 2 * i) / count;
          const speed = 1.9 + Math.random() * 3.8;
          particles.push({
            x,
            y,
            vx: Math.cos(angle) * speed,
            vy: Math.sin(angle) * speed,
            life: 64 + Math.random() * 28,
            color: palette[i % palette.length],
            size: 2.4 + Math.random() * 3.6
          });
        }
      }

      function tick() {
        const rect = host.getBoundingClientRect();
        ctx.clearRect(0, 0, rect.width, rect.height);
        for (let i = particles.length - 1; i >= 0; i -= 1) {
          const particle = particles[i];
          particle.x += particle.vx;
          particle.y += particle.vy;
          particle.vy += 0.035;
          particle.life -= 1;
          if (particle.life <= 0) {
            particles.splice(i, 1);
            continue;
          }
          ctx.globalAlpha = particle.life / 68;
          ctx.fillStyle = particle.color;
          ctx.beginPath();
          ctx.arc(particle.x, particle.y, particle.size, 0, Math.PI * 2);
          ctx.fill();
        }
        ctx.globalAlpha = 1;
        requestAnimationFrame(tick);
      }

      resize();
      burst();
      burst();
      burst();
      setInterval(() => {
        burst();
        if (Math.random() > 0.45) {
          burst();
        }
      }, 900);
      window.addEventListener(\"resize\", resize);
      tick();

      function formatNumber(value, decimals) {
        return value.toLocaleString('en-US', {
          minimumFractionDigits: decimals,
          maximumFractionDigits: decimals
        });
      }

      function animateNumbers() {
        const nodes = document.querySelectorAll('.number-roll');
        const duration = 1400;
        const start = performance.now();

        function frame(now) {
          const progress = Math.min((now - start) / duration, 1);
          const eased = 1 - Math.pow(1 - progress, 3);

          nodes.forEach((node) => {
            const target = Number(node.dataset.targetNumber || '0');
            const decimals = Number(node.dataset.decimals || '0');
            const value = target * eased;
            node.textContent = formatNumber(value, decimals);
          });

          if (progress < 1) {
            requestAnimationFrame(frame);
          }
        }

        requestAnimationFrame(frame);
      }

      function renderWordCloud() {
        const canvas = document.getElementById('word-cloud-canvas');
        if (!canvas || typeof WordCloud !== 'function') {
          return;
        }

        const words = JSON.parse(canvas.dataset.words || '[]');
        const rect = canvas.getBoundingClientRect();
        const dpr = window.devicePixelRatio || 1;
        canvas.width = rect.width * dpr;
        canvas.height = rect.height * dpr;

        WordCloud(canvas, {
          list: words,
          gridSize: Math.max(6, Math.round(rect.width / 64)),
          weightFactor(size) {
            return Math.max(22, size * 0.34);
          },
          fontFamily: '-apple-system, BlinkMacSystemFont, \"Segoe UI\", sans-serif',
          color(word, weight, fontSize, distance, theta) {
            const palette = ['#ff6f61', '#00a6a6', '#ffb703', '#4cc9f0', '#48bfe3', '#f28482'];
            const index = Math.abs(Math.floor(theta * 10)) % palette.length;
            return palette[index];
          },
          backgroundColor: 'rgba(255,255,255,0)',
          rotateRatio: 0.08,
          rotationSteps: 2,
          drawOutOfBound: false,
          shuffle: false,
          shape: 'circle',
          ellipticity: 0.72,
          shrinkToFit: true,
          minSize: 12,
          classes(word, weight) {
            return 'cloud-word';
          }
        });
      }

      animateNumbers();
      renderWordCloud();
      window.addEventListener('resize', renderWordCloud);
    })();
  </script>
</body>
";

/// The closing tag of the page.
pub const PAGE_END: &'static str = "</html>";

} // verus!
